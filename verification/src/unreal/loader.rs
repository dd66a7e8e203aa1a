//! The collision geometry of a map, gathered over the packages of a client.
//!
//! The loader holds the packages that were read so far. A request that needs
//! another one names it, and is made again once it was added.

use vstd::prelude::*;
use vstd::string::StringExecFns;

use crate::error::{AppError, ErrorModel, Result};
use crate::text;
use crate::text::{push_signed, same_text};
use crate::unreal::model::{Box3, Model, SolidModel};
use crate::unreal::object;
use crate::unreal::object::{Object, ObjectModel};
use crate::unreal::objects::{Actor, Terrain, TerrainModel};
use crate::unreal::package::{Archive, ArchiveModel, ImportModel};
use crate::unreal::static_mesh::{Mesh, MeshModel, StaticMesh, StaticMeshModel};
use crate::unreal::terrain;
use crate::unreal::terrain::{terrain_mesh, TerrainMesh, TerrainMeshModel};
use crate::unreal::texture::{Texture, TextureModel};

verus! {

/// Why a request could not be answered.
#[derive(Debug)]
pub enum Stop {
    /// A package was not looked for yet.
    Needs(String),
    Failed(AppError),
}

/// What a [`Stop`] says.
#[verifier::ext_equal]
pub enum StopModel {
    Needs(Seq<char>),
    Failed(ErrorModel),
}

impl View for Stop {
    type V = StopModel;

    open spec fn view(&self) -> StopModel {
        match self {
            Stop::Needs(name) => StopModel::Needs(name@),
            Stop::Failed(error) => StopModel::Failed(error@),
        }
    }
}

/// An answer, or why there is none.
pub type Answer<T> = std::result::Result<T, StopModel>;

pub open spec fn settled<T>(result: std::result::Result<T, ErrorModel>) -> Answer<T> {
    match result {
        Ok(value) => Ok(value),
        Err(error) => Err(StopModel::Failed(error)),
    }
}

/// Whether a request is answered as expected.
pub open spec fn answers<T: View>(
    result: std::result::Result<T, Stop>,
    expected: Answer<T::V>,
) -> bool {
    match (result, expected) {
        (Ok(value), Ok(wanted)) => value@ == wanted,
        (Err(stop), Err(wanted)) => stop@ == wanted,
        _ => false,
    }
}

/// A package that was looked for: what it holds, unless it does not exist.
pub struct Package {
    pub name: String,
    pub archive: Option<Archive>,
}

/// What a [`Package`] says.
#[verifier::ext_equal]
pub struct PackageModel {
    pub name: Seq<char>,
    pub archive: Option<ArchiveModel>,
}

impl View for Package {
    type V = PackageModel;

    open spec fn view(&self) -> PackageModel {
        PackageModel {
            name: self.name@,
            archive: match self.archive {
                Some(archive) => Some(archive@),
                None => None,
            },
        }
    }
}

/// The packages that were looked for.
pub struct PackageLoader {
    packages: Vec<Package>,
}

impl View for PackageLoader {
    type V = Seq<PackageModel>;

    closed spec fn view(&self) -> Seq<PackageModel> {
        self.packages@.map_values(|package: Package| package@)
    }
}

/// The package of a name, from an entry on.
pub open spec fn archive_from(packages: Seq<PackageModel>, name: Seq<char>, index: nat) -> Answer<
    ArchiveModel,
>
    decreases packages.len() - index,
{
    if index >= packages.len() {
        Err(StopModel::Needs(name))
    } else if packages[index as int].name == name {
        match packages[index as int].archive {
            Some(archive) => Ok(archive),
            None => Err(
                StopModel::Failed(ErrorModel::Missing("can't find package: "@ + name)),
            ),
        }
    } else {
        archive_from(packages, name, index + 1)
    }
}

/// The package of a name.
pub open spec fn archive_named(packages: Seq<PackageModel>, name: Seq<char>) -> Answer<
    ArchiveModel,
> {
    archive_from(packages, name, 0)
}

/// The number of packages that exist among the first ones.
pub open spec fn existing(packages: Seq<PackageModel>) -> nat
    decreases packages.len(),
{
    if packages.len() == 0 {
        0
    } else {
        existing(packages.drop_last()) + if packages.last().archive is Some {
            1nat
        } else {
            0
        }
    }
}

/// The import that an import lies in, over all packages that it is nested in.
pub open spec fn root_of(
    archive: ArchiveModel,
    index: int,
    steps: nat,
) -> std::result::Result<int, ErrorModel>
    decreases steps,
{
    let package_index = archive.imports[index].package_index;
    if package_index == 0 {
        Ok(index)
    } else if !(0 <= -package_index - 1 < archive.imports.len()) {
        Err(ErrorModel::InvalidData("package import index out of bounds in "@ + archive.name))
    } else if steps == 0 {
        Err(ErrorModel::InvalidData("package imports form a circle in "@ + archive.name))
    } else {
        root_of(archive, -package_index - 1, (steps - 1) as nat)
    }
}

/// The first export from one on that an import stands for.
pub open spec fn export_from(archive: ArchiveModel, import: ImportModel, index: nat) -> Option<int>
    decreases archive.exports.len() - index,
{
    if index >= archive.exports.len() {
        None
    } else {
        let export = archive.exports[index as int];
        if export.object_name == import.object_name && export.class_name == import.class_name
            && export.class_name != "Package"@ {
            Some(index as int)
        } else {
            export_from(archive, import, index + 1)
        }
    }
}

/// An imported object.
pub open spec fn imported(packages: Seq<PackageModel>, archive: ArchiveModel, index: int) -> Answer<
    ObjectModel,
> {
    let import = archive.imports[index];
    match root_of(archive, index, archive.imports.len()) {
        Err(error) => Err(StopModel::Failed(error)),
        Ok(root) => {
            let package = archive.imports[root].object_name;
            match archive_named(packages, package) {
                Err(stop) => Err(stop),
                Ok(other) => match export_from(other, import, 0) {
                    Some(export) => settled(object::object_in(other, export)),
                    None => Err(
                        StopModel::Failed(
                            ErrorModel::Missing(
                                "can't find object "@ + package + "."@ + import.object_name,
                            ),
                        ),
                    ),
                },
            }
        },
    }
}

/// An object by its index: exported for a positive one, imported for a
/// negative one.
pub open spec fn referenced(
    packages: Seq<PackageModel>,
    archive: ArchiveModel,
    index: int,
    context: Seq<char>,
) -> Answer<ObjectModel> {
    if index == 0 {
        Err(
            StopModel::Failed(
                ErrorModel::Missing("required object reference is empty: "@ + context),
            ),
        )
    } else if index > 0 {
        settled(object::object_in(archive, index - 1))
    } else if -index - 1 >= archive.imports.len() {
        Err(
            StopModel::Failed(
                ErrorModel::InvalidData("import index out of bounds in "@ + archive.name),
            ),
        )
    } else {
        imported(packages, archive, -index - 1)
    }
}

pub open spec fn wrong_kind(context: Seq<char>, object: ObjectModel, wanted: Seq<char>) -> StopModel {
    StopModel::Failed(
        ErrorModel::InvalidData(context + " is "@ + object.kind() + ", not "@ + wanted),
    )
}

pub open spec fn texture_referenced(
    packages: Seq<PackageModel>,
    archive: ArchiveModel,
    index: int,
    context: Seq<char>,
) -> Answer<TextureModel> {
    match referenced(packages, archive, index, context) {
        Err(stop) => Err(stop),
        Ok(ObjectModel::Texture(texture)) => Ok(texture),
        Ok(other) => Err(wrong_kind(context, other, "Texture"@)),
    }
}

pub open spec fn mesh_referenced(
    packages: Seq<PackageModel>,
    archive: ArchiveModel,
    index: int,
) -> Answer<StaticMeshModel> {
    match referenced(packages, archive, index, "Actor.StaticMesh"@) {
        Err(stop) => Err(stop),
        Ok(ObjectModel::StaticMesh(mesh)) => Ok(mesh),
        Ok(other) => Err(wrong_kind("Actor.StaticMesh"@, other, "StaticMesh"@)),
    }
}

pub open spec fn model_referenced(
    packages: Seq<PackageModel>,
    archive: ArchiveModel,
    index: int,
    context: Seq<char>,
) -> Answer<SolidModel> {
    match referenced(packages, archive, index, context) {
        Err(stop) => Err(stop),
        Ok(ObjectModel::Model(model)) => Ok(model),
        Ok(other) => Err(wrong_kind(context, other, "Model"@)),
    }
}

/// A terrain and its heights.
#[derive(Clone, Debug)]
pub struct Ground {
    pub terrain: Terrain,
    pub texture: Texture,
}

/// What a [`Ground`] holds.
#[verifier::ext_equal]
pub struct GroundModel {
    pub terrain: TerrainModel,
    pub texture: TextureModel,
}

impl View for Ground {
    type V = GroundModel;

    open spec fn view(&self) -> GroundModel {
        GroundModel { terrain: self.terrain@, texture: self.texture@ }
    }
}

/// The first terrain among objects, from one on.
pub open spec fn terrain_from(objects: Seq<ObjectModel>, index: nat) -> Option<TerrainModel>
    decreases objects.len() - index,
{
    if index >= objects.len() {
        None
    } else {
        match objects[index as int] {
            ObjectModel::Terrain(terrain) => Some(terrain),
            _ => terrain_from(objects, index + 1),
        }
    }
}

/// The first terrain of a package.
pub open spec fn terrain_in(archive: ArchiveModel) -> std::result::Result<
    Option<TerrainModel>,
    ErrorModel,
> {
    match object::objects_named(archive, "TerrainInfo"@) {
        Err(error) => Err(error),
        Ok(objects) => Ok(terrain_from(objects, 0)),
    }
}

/// The ground of a map.
pub open spec fn ground_of(packages: Seq<PackageModel>, name: Seq<char>) -> Answer<GroundModel> {
    match archive_named(packages, name) {
        Err(stop) => Err(stop),
        Ok(archive) => match terrain_in(archive) {
            Err(error) => Err(StopModel::Failed(error)),
            Ok(None) => Err(
                StopModel::Failed(ErrorModel::InvalidData("no TerrainInfo in package: "@ + name)),
            ),
            Ok(Some(terrain)) => match texture_referenced(
                packages,
                archive,
                terrain.map_index as int,
                "TerrainMap"@,
            ) {
                Err(stop) => Err(stop),
                Ok(texture) => if texture.mips.len() == 0 {
                    Err(
                        StopModel::Failed(
                            ErrorModel::InvalidData(
                                "can't load terrain heightmap in package: "@ + name,
                            ),
                        ),
                    )
                } else {
                    Ok(GroundModel { terrain, texture })
                },
            },
        },
    }
}

/// The name of the map at a place of the world.
pub open spec fn map_name(x: int, y: int) -> Seq<char> {
    text::signed_decimal(x) + "_"@ + text::signed_decimal(y)
}

/// A number one more, in 32 bits.
pub open spec fn next(value: i32) -> i32 {
    if value == i32::MAX {
        i32::MIN
    } else {
        (value + 1) as i32
    }
}

/// The ground of a neighbour: none where the map or its terrain is missing, or
/// its scale is broken.
pub open spec fn side_of(packages: Seq<PackageModel>, x: int, y: int) -> Answer<
    Option<GroundModel>,
> {
    match archive_named(packages, map_name(x, y)) {
        Err(StopModel::Failed(ErrorModel::Missing(_))) => Ok(None),
        Err(stop) => Err(stop),
        Ok(archive) => match terrain_in(archive) {
            Err(error) => Err(StopModel::Failed(error)),
            Ok(None) => Ok(None),
            Ok(Some(terrain)) => if terrain.broken_scale() {
                Ok(None)
            } else {
                match texture_referenced(
                    packages,
                    archive,
                    terrain.map_index as int,
                    "TerrainMap"@,
                ) {
                    Err(stop) => Err(stop),
                    Ok(texture) => Ok(Some(GroundModel { terrain, texture })),
                }
            },
        },
    }
}

/// Where geometry comes from.
#[derive(Clone, Copy, Debug, PartialEq, Eq, Structural)]
pub enum GeometrySource {
    StaticMesh,
    Bsp,
    BlockingVolume,
}

/// Geometry as an actor places it. Without an actor it stands where it is.
#[derive(Clone, Debug)]
pub struct Part {
    pub source: GeometrySource,
    pub mesh: Mesh,
    pub actor: Option<Actor>,
}

/// What a [`Part`] holds.
#[verifier::ext_equal]
pub struct PartModel {
    pub source: GeometrySource,
    pub mesh: MeshModel,
    pub actor: Option<Actor>,
}

impl View for Part {
    type V = PartModel;

    open spec fn view(&self) -> PartModel {
        PartModel { source: self.source, mesh: self.mesh@, actor: self.actor }
    }
}

pub open spec fn parts_of(parts: Seq<Part>) -> Seq<PartModel> {
    parts.map_values(|part: Part| part@)
}

/// The geometry of an actor: none where it stops nobody, or its mesh is
/// missing.
pub open spec fn actor_part(
    packages: Seq<PackageModel>,
    archive: ArchiveModel,
    object: ObjectModel,
) -> Answer<Option<PartModel>> {
    match object {
        ObjectModel::Actor(actor) => if !actor.solid() || actor.static_mesh is None {
            Ok(None)
        } else {
            match mesh_referenced(packages, archive, actor.static_mesh->0 as int) {
                Err(StopModel::Failed(ErrorModel::Missing(_))) => Ok(None),
                Err(stop) => Err(stop),
                Ok(mesh) => match mesh.collision() {
                    Err(error) => Err(StopModel::Failed(error)),
                    Ok(mesh) => Ok(
                        Some(
                            PartModel {
                                source: GeometrySource::StaticMesh,
                                mesh,
                                actor: Some(actor),
                            },
                        ),
                    ),
                },
            }
        },
        _ => Ok(None),
    }
}

/// The geometry of a solid.
pub open spec fn solid_part(
    model: SolidModel,
    bounds: Option<Box3>,
    source: GeometrySource,
    actor: Option<Actor>,
) -> Answer<Option<PartModel>> {
    match model.mesh(bounds) {
        Err(error) => Err(StopModel::Failed(error)),
        Ok(None) => Ok(None),
        Ok(Some(mesh)) => Ok(Some(PartModel { source, mesh, actor })),
    }
}

/// The geometry of a level, within the bounds of the map.
pub open spec fn level_part(
    packages: Seq<PackageModel>,
    archive: ArchiveModel,
    object: ObjectModel,
    bounds: Box3,
) -> Answer<Option<PartModel>> {
    match object {
        ObjectModel::Level(level) => match model_referenced(
            packages,
            archive,
            level.model_index as int,
            "Level.Model"@,
        ) {
            Err(stop) => Err(stop),
            Ok(model) => solid_part(model, Some(bounds), GeometrySource::Bsp, None),
        },
        _ => Ok(None),
    }
}

/// The geometry of a blocking volume.
pub open spec fn volume_part(
    packages: Seq<PackageModel>,
    archive: ArchiveModel,
    object: ObjectModel,
) -> Answer<Option<PartModel>> {
    match object {
        ObjectModel::Brush(brush) => match brush.brush {
            None => Ok(None),
            Some(index) => match model_referenced(
                packages,
                archive,
                index as int,
                "BlockingVolume.Brush"@,
            ) {
                Err(stop) => Err(stop),
                Ok(model) => solid_part(
                    model,
                    None,
                    GeometrySource::BlockingVolume,
                    Some(brush.actor),
                ),
            },
        },
        _ => Ok(None),
    }
}

/// The kinds of objects that give geometry.
#[derive(Clone, Copy, Debug, PartialEq, Eq, Structural)]
pub enum Role {
    Actor,
    Level,
    Volume,
}

/// The geometry of an object in a role.
pub open spec fn part_of(
    packages: Seq<PackageModel>,
    archive: ArchiveModel,
    object: ObjectModel,
    role: Role,
    bounds: Box3,
) -> Answer<Option<PartModel>> {
    match role {
        Role::Actor => actor_part(packages, archive, object),
        Role::Level => level_part(packages, archive, object, bounds),
        Role::Volume => volume_part(packages, archive, object),
    }
}

/// The geometry of objects, from one on, behind what was gathered.
pub open spec fn parts_from(
    packages: Seq<PackageModel>,
    archive: ArchiveModel,
    objects: Seq<ObjectModel>,
    role: Role,
    bounds: Box3,
    index: nat,
    done: Seq<PartModel>,
) -> Answer<Seq<PartModel>>
    decreases objects.len() - index,
{
    if index >= objects.len() {
        Ok(done)
    } else {
        match part_of(packages, archive, objects[index as int], role, bounds) {
            Err(stop) => Err(stop),
            Ok(None) => parts_from(packages, archive, objects, role, bounds, index + 1, done),
            Ok(Some(part)) => parts_from(
                packages,
                archive,
                objects,
                role,
                bounds,
                index + 1,
                done.push(part),
            ),
        }
    }
}

/// The geometry of the objects of a class, behind what was gathered.
pub open spec fn class_parts(
    packages: Seq<PackageModel>,
    archive: ArchiveModel,
    class: Seq<char>,
    role: Role,
    bounds: Box3,
    done: Seq<PartModel>,
) -> Answer<Seq<PartModel>> {
    match object::objects_named(archive, class) {
        Err(error) => Err(StopModel::Failed(error)),
        Ok(objects) => parts_from(packages, archive, objects, role, bounds, 0, done),
    }
}

/// The geometry of a map apart from its ground: actors, levels, volumes.
pub open spec fn all_parts(
    packages: Seq<PackageModel>,
    archive: ArchiveModel,
    bounds: Box3,
) -> Answer<Seq<PartModel>> {
    match class_parts(
        packages,
        archive,
        "StaticMeshActor"@,
        Role::Actor,
        bounds,
        Seq::empty(),
    ) {
        Err(stop) => Err(stop),
        Ok(parts) => match class_parts(
            packages,
            archive,
            "MovableStaticMeshActor"@,
            Role::Actor,
            bounds,
            parts,
        ) {
            Err(stop) => Err(stop),
            Ok(parts) => match class_parts(
                packages,
                archive,
                "L2MovableStaticMeshActor"@,
                Role::Actor,
                bounds,
                parts,
            ) {
                Err(stop) => Err(stop),
                Ok(parts) => match class_parts(
                    packages,
                    archive,
                    "Level"@,
                    Role::Level,
                    bounds,
                    parts,
                ) {
                    Err(stop) => Err(stop),
                    Ok(parts) => class_parts(
                        packages,
                        archive,
                        "BlockingVolume"@,
                        Role::Volume,
                        bounds,
                        parts,
                    ),
                },
            },
        },
    }
}

/// The ground of a map joined to its neighbours.
#[derive(Clone, Debug)]
pub struct JoinedGround {
    pub mesh: TerrainMesh,
    pub south: Option<Ground>,
    pub east: Option<Ground>,
    pub southeast: Option<Ground>,
}

/// What a [`JoinedGround`] holds.
#[verifier::ext_equal]
pub struct JoinedModel {
    pub mesh: TerrainMeshModel,
    pub south: Option<GroundModel>,
    pub east: Option<GroundModel>,
    pub southeast: Option<GroundModel>,
}

pub open spec fn ground_view(side: Option<Ground>) -> Option<GroundModel> {
    match side {
        Some(ground) => Some(ground@),
        None => None,
    }
}

impl View for JoinedGround {
    type V = JoinedModel;

    open spec fn view(&self) -> JoinedModel {
        JoinedModel {
            mesh: self.mesh@,
            south: ground_view(self.south),
            east: ground_view(self.east),
            southeast: ground_view(self.southeast),
        }
    }
}

pub open spec fn heights_of(side: Option<GroundModel>) -> Option<TextureModel> {
    match side {
        Some(ground) => Some(ground.texture),
        None => None,
    }
}

/// The triangles of the ground and its neighbours.
pub open spec fn joined(
    ground: GroundModel,
    south: Option<GroundModel>,
    east: Option<GroundModel>,
    southeast: Option<GroundModel>,
) -> Answer<JoinedModel> {
    match terrain::tiles_of(
        ground.texture,
        heights_of(south),
        heights_of(east),
        heights_of(southeast),
    ) {
        Err(error) => Err(StopModel::Failed(error)),
        Ok(tiles) => if tiles.complete() {
            Ok(JoinedModel { mesh: tiles.mesh(ground.terrain), south, east, southeast })
        } else {
            Err(StopModel::Failed(terrain::too_small()))
        },
    }
}

/// The ground of a map, joined to that of the maps to the south, to the east
/// and between them.
pub open spec fn joined_ground(packages: Seq<PackageModel>, ground: GroundModel) -> Answer<
    JoinedModel,
> {
    let x = ground.terrain.map_x;
    let y = ground.terrain.map_y;
    match side_of(packages, x as int, next(y) as int) {
        Err(stop) => Err(stop),
        Ok(south) => match side_of(packages, next(x) as int, y as int) {
            Err(stop) => Err(stop),
            Ok(east) => match side_of(packages, next(x) as int, next(y) as int) {
                Err(stop) => Err(stop),
                Ok(southeast) => joined(ground, south, east, southeast),
            },
        },
    }
}

/// The collision geometry of a map.
#[derive(Clone, Debug)]
pub struct SourceMap {
    pub name: String,
    pub ground: Ground,
    /// Absent where the scale of the terrain is broken.
    pub joined: Option<JoinedGround>,
    pub parts: Vec<Part>,
}

/// What a [`SourceMap`] holds.
#[verifier::ext_equal]
pub struct MapModel {
    pub name: Seq<char>,
    pub ground: GroundModel,
    pub joined: Option<JoinedModel>,
    pub parts: Seq<PartModel>,
}

impl View for SourceMap {
    type V = MapModel;

    open spec fn view(&self) -> MapModel {
        MapModel {
            name: self.name@,
            ground: self.ground@,
            joined: match self.joined {
                Some(joined) => Some(joined@),
                None => None,
            },
            parts: parts_of(self.parts@),
        }
    }
}

/// The geometry of a map. Solids of its levels count as far as they lie within
/// bounds.
pub open spec fn map_of(packages: Seq<PackageModel>, name: Seq<char>, bounds: Box3) -> Answer<
    MapModel,
> {
    match ground_of(packages, name) {
        Err(stop) => Err(stop),
        Ok(ground) => match (if ground.terrain.broken_scale() {
            Ok(None)
        } else {
            match joined_ground(packages, ground) {
                Err(stop) => Err(stop),
                Ok(joined) => Ok(Some(joined)),
            }
        }) {
            Err(stop) => Err(stop),
            Ok(joined) => match all_parts(
                packages,
                archive_named(packages, name)->Ok_0,
                bounds,
            ) {
                Err(stop) => Err(stop),
                Ok(parts) => Ok(MapModel { name, ground, joined, parts }),
            },
        },
    }
}

/// Where a package may lie in a client: a directory and a file name each.
pub open spec fn package_files(name: Seq<char>) -> Seq<(Seq<char>, Seq<char>)> {
    seq![
        ("Maps"@, name + ".unr"@),
        ("StaticMeshes"@, name + ".usx"@),
        ("Textures"@, name + ".utx"@),
        ("SysTextures"@, name + ".utx"@),
    ]
}

fn file_of(name: &str, extension: &str) -> (file: String)
    ensures
        file@ == name@ + extension@,
{
    let mut file = name.to_owned();
    file.append(extension);
    file
}

/// The files to look for a package in, in order.
pub fn candidates(name: &str) -> (files: Vec<(String, String)>)
    ensures
        files@.map_values(|file: (String, String)| (file.0@, file.1@)) == package_files(name@),
{
    let mut files: Vec<(String, String)> = Vec::new();
    files.push(("Maps".to_owned(), file_of(name, ".unr")));
    files.push(("StaticMeshes".to_owned(), file_of(name, ".usx")));
    files.push(("Textures".to_owned(), file_of(name, ".utx")));
    files.push(("SysTextures".to_owned(), file_of(name, ".utx")));
    assert(files@.map_values(|file: (String, String)| (file.0@, file.1@)) =~= package_files(
        name@,
    ));
    files
}

fn message(opening: &str, detail: &str) -> (text: String)
    ensures
        text@ == opening@ + detail@,
{
    let mut text = opening.to_owned();
    text.append(detail);
    text
}

fn wrong(context: &str, object: &Object, wanted: &str) -> (stop: Stop)
    ensures
        stop@ == wrong_kind(context@, object@, wanted@),
{
    let mut text = context.to_owned();
    text.append(" is ");
    text.append(object.kind());
    text.append(", not ");
    text.append(wanted);
    Stop::Failed(AppError::InvalidData(text))
}

fn settle<T: View>(result: Result<T>) -> (answer: std::result::Result<T, Stop>)
    ensures
        match (result, answer) {
            (Ok(value), Ok(same)) => value == same,
            (Err(error), Err(stop)) => stop@ == StopModel::Failed(error@),
            _ => false,
        },
{
    match result {
        Ok(value) => Ok(value),
        Err(error) => Err(Stop::Failed(error)),
    }
}

fn find_root(archive: &Archive, index: usize) -> (result: Result<usize>)
    requires
        index < archive.imports@.len(),
    ensures
        match (result, root_of(archive@, index as int, archive@.imports.len())) {
            (Ok(root), Ok(expected)) => root == expected && root < archive.imports@.len(),
            (Err(error), Err(expected)) => error@ == expected,
            _ => false,
        },
{
    let mut at: usize = index;
    let mut steps: usize = archive.imports.len();
    loop
        invariant
            at < archive.imports@.len(),
            root_of(archive@, index as int, archive@.imports.len()) == root_of(
                archive@,
                at as int,
                steps as nat,
            ),
        decreases steps,
    {
        assert(archive@.imports[at as int] == archive.imports@[at as int]@);
        let package_index: i32 = archive.imports[at].package_index;
        if package_index == 0 {
            return Ok(at);
        }
        if package_index > 0 || (-(package_index as i64) - 1) as u64 >= archive.imports.len() as u64 {
            return Err(
                AppError::InvalidData(
                    message("package import index out of bounds in ", archive.name.as_str()),
                ),
            );
        }
        if steps == 0 {
            return Err(
                AppError::InvalidData(
                    message("package imports form a circle in ", archive.name.as_str()),
                ),
            );
        }
        at = (-(package_index as i64) - 1) as usize;
        steps = steps - 1;
    }
}

fn find_export(other: &Archive, archive: &Archive, index: usize) -> (export: Option<usize>)
    requires
        index < archive.imports@.len(),
    ensures
        match (export, export_from(other@, archive@.imports[index as int], 0)) {
            (Some(export), Some(expected)) => export == expected,
            (None, None) => true,
            _ => false,
        },
{
    let import = &archive.imports[index];
    assert(archive@.imports[index as int] == import@);
    let mut at: usize = 0;
    while at < other.exports.len()
        invariant
            at <= other.exports@.len(),
            archive@.imports[index as int] == import@,
            export_from(other@, import@, 0) == export_from(other@, import@, at as nat),
        decreases other.exports.len() - at,
    {
        let export = &other.exports[at];
        assert(other@.exports[at as int] == export@);
        if same_text(export.object_name.as_str(), import.object_name.as_str()) && same_text(
            export.class_name.as_str(),
            import.class_name.as_str(),
        ) && !same_text(export.class_name.as_str(), "Package") {
            return Some(at);
        }
        at += 1;
    }
    None
}

fn first_terrain(archive: &Archive) -> (result: Result<Option<Terrain>>)
    ensures
        match (result, terrain_in(archive@)) {
            (Ok(Some(terrain)), Ok(Some(expected))) => terrain@ == expected,
            (Ok(None), Ok(None)) => true,
            (Err(error), Err(expected)) => error@ == expected,
            _ => false,
        },
{
    let mut objects = archive.objects_named("TerrainInfo")?;
    let ghost list = object::objects_of(objects@);
    let mut index: usize = 0;
    while index < objects.len()
        invariant
            index <= objects@.len(),
            list == object::objects_of(objects@),
            terrain_in(archive@) == Ok::<_, ErrorModel>(terrain_from(list, index as nat)),
        decreases objects.len() - index,
    {
        assert(list[index as int] == objects@[index as int]@);
        if matches!(objects[index], Object::Terrain(_)) {
            if let Object::Terrain(terrain) = objects.remove(index) {
                return Ok(Some(terrain));
            }
            return Ok(None);
        }
        index += 1;
    }
    Ok(None)
}

fn following(value: i32) -> (result: i32)
    ensures
        result == next(value),
{
    if value == i32::MAX {
        i32::MIN
    } else {
        value + 1
    }
}

fn texture_in(side: &Option<Ground>) -> (texture: Option<&Texture>)
    ensures
        terrain::texture_of(texture) == heights_of(ground_view(*side)),
{
    match side {
        Some(ground) => Some(&ground.texture),
        None => None,
    }
}

impl PackageLoader {
    /// A loader without packages.
    pub fn new() -> (loader: Self)
        ensures
            loader@ == Seq::<PackageModel>::empty(),
    {
        let loader = PackageLoader { packages: Vec::new() };
        assert(loader@ =~= Seq::empty());
        loader
    }

    /// Adds a package that was looked for.
    pub fn add(&mut self, name: &str, archive: Option<Archive>)
        ensures
            final(self)@ == old(self)@.push(
                PackageModel {
                    name: name@,
                    archive: match archive {
                        Some(archive) => Some(archive@),
                        None => None,
                    },
                },
            ),
    {
        let package = Package { name: name.to_owned(), archive };
        let ghost model = package@;
        self.packages.push(package);
        assert(self@ =~= old(self)@.push(model));
    }

    /// The number of packages that were found.
    pub fn loaded_package_count(&self) -> (count: usize)
        ensures
            count == existing(self@),
    {
        let mut count: usize = 0;
        let mut i: usize = 0;
        while i < self.packages.len()
            invariant
                i <= self.packages@.len(),
                count <= i,
                count == existing(self@.take(i as int)),
            decreases self.packages.len() - i,
        {
            proof {
                assert(self@.take(i + 1).drop_last() =~= self@.take(i as int));
                assert(self@.take(i + 1).last() == self.packages@[i as int]@);
            }
            if self.packages[i].archive.is_some() {
                count += 1;
            }
            i += 1;
        }
        assert(self@.take(i as int) =~= self@);
        count
    }

    fn archive(&self, name: &str) -> (result: std::result::Result<&Archive, Stop>)
        ensures
            match (result, archive_named(self@, name@)) {
                (Ok(archive), Ok(expected)) => archive@ == expected,
                (Err(stop), Err(expected)) => stop@ == expected,
                _ => false,
            },
    {
        let mut i: usize = 0;
        while i < self.packages.len()
            invariant
                i <= self.packages@.len(),
                self@.len() == self.packages@.len(),
                archive_named(self@, name@) == archive_from(self@, name@, i as nat),
            decreases self.packages.len() - i,
        {
            let package = &self.packages[i];
            assert(self@[i as int] == package@);
            if same_text(package.name.as_str(), name) {
                match &package.archive {
                    Some(archive) => {
                        return Ok(archive);
                    },
                    None => {
                        return Err(
                            Stop::Failed(AppError::Missing(message("can't find package: ", name))),
                        );
                    },
                }
            }
            i += 1;
        }
        Err(Stop::Needs(name.to_owned()))
    }

    fn imported(&self, archive: &Archive, index: usize) -> (result: std::result::Result<
        Object,
        Stop,
    >)
        requires
            index < archive.imports@.len(),
        ensures
            answers(result, imported(self@, archive@, index as int)),
    {
        match find_root(archive, index) {
            Err(error) => Err(Stop::Failed(error)),
            Ok(root) => {
                assert(archive@.imports[root as int] == archive.imports@[root as int]@);
                assert(archive@.imports[index as int] == archive.imports@[index as int]@);
                let package = archive.imports[root].object_name.as_str();
                let other = self.archive(package)?;
                match find_export(other, archive, index) {
                    Some(export) => settle(other.load_export(export)),
                    None => {
                        let mut text = "can't find object ".to_owned();
                        text.append(package);
                        text.append(".");
                        text.append(archive.imports[index].object_name.as_str());
                        Err(Stop::Failed(AppError::Missing(text)))
                    },
                }
            },
        }
    }

    fn object_ref(&self, archive: &Archive, index: i32, context: &str) -> (result:
        std::result::Result<Object, Stop>)
        ensures
            answers(result, referenced(self@, archive@, index as int, context@)),
    {
        if index == 0 {
            Err(
                Stop::Failed(
                    AppError::Missing(message("required object reference is empty: ", context)),
                ),
            )
        } else if index > 0 {
            settle(archive.load_export((index - 1) as usize))
        } else if (-(index as i64) - 1) as u64 >= archive.imports.len() as u64 {
            Err(
                Stop::Failed(
                    AppError::InvalidData(
                        message("import index out of bounds in ", archive.name.as_str()),
                    ),
                ),
            )
        } else {
            self.imported(archive, (-(index as i64) - 1) as usize)
        }
    }

    fn texture_ref(&self, archive: &Archive, index: i32, context: &str) -> (result:
        std::result::Result<Texture, Stop>)
        ensures
            answers(result, texture_referenced(self@, archive@, index as int, context@)),
    {
        match self.object_ref(archive, index, context)? {
            Object::Texture(texture) => Ok(texture),
            other => Err(wrong(context, &other, "Texture")),
        }
    }

    fn static_mesh_ref(&self, archive: &Archive, index: i32) -> (result: std::result::Result<
        StaticMesh,
        Stop,
    >)
        ensures
            answers(result, mesh_referenced(self@, archive@, index as int)),
    {
        match self.object_ref(archive, index, "Actor.StaticMesh")? {
            Object::StaticMesh(mesh) => Ok(mesh),
            other => Err(wrong("Actor.StaticMesh", &other, "StaticMesh")),
        }
    }

    fn model_ref(&self, archive: &Archive, index: i32, context: &str) -> (result:
        std::result::Result<Model, Stop>)
        ensures
            answers(result, model_referenced(self@, archive@, index as int, context@)),
    {
        match self.object_ref(archive, index, context)? {
            Object::Model(model) => Ok(model),
            other => Err(wrong(context, &other, "Model")),
        }
    }

    /// The ground of a map, from which the bounds of the map follow.
    pub fn map_ground(&self, name: &str) -> (result: std::result::Result<Ground, Stop>)
        ensures
            answers(result, ground_of(self@, name@)),
    {
        let archive = self.archive(name)?;
        match first_terrain(archive) {
            Err(error) => Err(Stop::Failed(error)),
            Ok(None) => Err(
                Stop::Failed(AppError::InvalidData(message("no TerrainInfo in package: ", name))),
            ),
            Ok(Some(terrain)) => {
                let texture = self.texture_ref(archive, terrain.map_index, "TerrainMap")?;
                assert(texture@.mips.len() == texture.mips@.len());
                if texture.mips.len() == 0 {
                    return Err(
                        Stop::Failed(
                            AppError::InvalidData(
                                message("can't load terrain heightmap in package: ", name),
                            ),
                        ),
                    );
                }
                Ok(Ground { terrain, texture })
            },
        }
    }

    fn side_terrain(&self, x: i32, y: i32) -> (result: std::result::Result<Option<Ground>, Stop>)
        ensures
            match (result, side_of(self@, x as int, y as int)) {
                (Ok(side), Ok(expected)) => ground_view(side) == expected,
                (Err(stop), Err(expected)) => stop@ == expected,
                _ => false,
            },
    {
        let mut name = String::new();
        push_signed(&mut name, x as i64);
        name.append("_");
        push_signed(&mut name, y as i64);
        assert(name@ =~= map_name(x as int, y as int));
        let archive = match self.archive(name.as_str()) {
            Ok(archive) => archive,
            Err(Stop::Failed(AppError::Missing(_))) => {
                return Ok(None);
            },
            Err(stop) => {
                return Err(stop);
            },
        };
        match first_terrain(archive) {
            Err(error) => Err(Stop::Failed(error)),
            Ok(None) => Ok(None),
            Ok(Some(terrain)) => {
                if terrain.broken_scale() {
                    return Ok(None);
                }
                let texture = self.texture_ref(archive, terrain.map_index, "TerrainMap")?;
                Ok(Some(Ground { terrain, texture }))
            },
        }
    }

    fn join_ground(&self, ground: &Ground) -> (result: std::result::Result<JoinedGround, Stop>)
        ensures
            answers(result, joined_ground(self@, ground@)),
    {
        let x: i32 = ground.terrain.map_x;
        let y: i32 = ground.terrain.map_y;
        let south = self.side_terrain(x, following(y))?;
        let east = self.side_terrain(following(x), y)?;
        let southeast = self.side_terrain(following(x), following(y))?;
        match terrain_mesh(
            &ground.terrain,
            &ground.texture,
            texture_in(&south),
            texture_in(&east),
            texture_in(&southeast),
        ) {
            Err(error) => Err(Stop::Failed(error)),
            Ok(mesh) => Ok(JoinedGround { mesh, south, east, southeast }),
        }
    }

    fn actor_part(&self, archive: &Archive, object: &Object) -> (result: std::result::Result<
        Option<Part>,
        Stop,
    >)
        ensures
            part_answers(result, actor_part(self@, archive@, object@)),
    {
        let actor = match object {
            Object::Actor(actor) => *actor,
            _ => {
                return Ok(None);
            },
        };
        if !actor.is_solid() {
            return Ok(None);
        }
        let index: i32 = match actor.static_mesh {
            Some(index) => index,
            None => {
                return Ok(None);
            },
        };
        match self.static_mesh_ref(archive, index) {
            Err(Stop::Failed(AppError::Missing(_))) => Ok(None),
            Err(stop) => Err(stop),
            Ok(mesh) => match mesh.collision_mesh() {
                Err(error) => Err(Stop::Failed(error)),
                Ok(mesh) => Ok(
                    Some(Part { source: GeometrySource::StaticMesh, mesh, actor: Some(actor) }),
                ),
            },
        }
    }

    fn level_part(&self, archive: &Archive, object: &Object, bounds: Box3) -> (result:
        std::result::Result<Option<Part>, Stop>)
        ensures
            part_answers(result, level_part(self@, archive@, object@, bounds)),
    {
        match object {
            Object::Level(level) => {
                let model = self.model_ref(archive, level.model_index, "Level.Model")?;
                place_solid(&model, Some(bounds), GeometrySource::Bsp, None)
            },
            _ => Ok(None),
        }
    }

    fn volume_part(&self, archive: &Archive, object: &Object) -> (result: std::result::Result<
        Option<Part>,
        Stop,
    >)
        ensures
            part_answers(result, volume_part(self@, archive@, object@)),
    {
        match object {
            Object::Brush(brush) => match brush.brush {
                None => Ok(None),
                Some(index) => {
                    let model = self.model_ref(archive, index, "BlockingVolume.Brush")?;
                    place_solid(&model, None, GeometrySource::BlockingVolume, Some(brush.actor))
                },
            },
            _ => Ok(None),
        }
    }

    fn gather(
        &self,
        archive: &Archive,
        class: &str,
        role: Role,
        bounds: Box3,
        parts: &mut Vec<Part>,
    ) -> (result: std::result::Result<(), Stop>)
        ensures
            match (
                result,
                class_parts(self@, archive@, class@, role, bounds, parts_of(old(parts)@)),
            ) {
                (Ok(_), Ok(expected)) => parts_of(final(parts)@) == expected,
                (Err(stop), Err(expected)) => stop@ == expected,
                _ => false,
            },
    {
        let objects = match archive.objects_named(class) {
            Err(error) => {
                return Err(Stop::Failed(error));
            },
            Ok(objects) => objects,
        };
        let ghost list = object::objects_of(objects@);
        let ghost expected = class_parts(
            self@,
            archive@,
            class@,
            role,
            bounds,
            parts_of(old(parts)@),
        );
        let mut i: usize = 0;
        while i < objects.len()
            invariant
                i <= objects@.len(),
                list == object::objects_of(objects@),
                expected == class_parts(
                    self@,
                    archive@,
                    class@,
                    role,
                    bounds,
                    parts_of(old(parts)@),
                ),
                expected == parts_from(
                    self@,
                    archive@,
                    list,
                    role,
                    bounds,
                    i as nat,
                    parts_of(parts@),
                ),
            decreases objects.len() - i,
        {
            let object = &objects[i];
            assert(list[i as int] == object@);
            let found = match role {
                Role::Actor => self.actor_part(archive, object),
                Role::Level => self.level_part(archive, object, bounds),
                Role::Volume => self.volume_part(archive, object),
            };
            match found {
                Err(stop) => {
                    return Err(stop);
                },
                Ok(None) => {},
                Ok(Some(part)) => {
                    let ghost before = parts_of(parts@);
                    parts.push(part);
                    assert(parts_of(parts@) =~= before.push(part@));
                },
            }
            i += 1;
        }
        Ok(())
    }

    fn all_parts(&self, archive: &Archive, bounds: Box3) -> (result: std::result::Result<
        Vec<Part>,
        Stop,
    >)
        ensures
            match (result, all_parts(self@, archive@, bounds)) {
                (Ok(parts), Ok(expected)) => parts_of(parts@) == expected,
                (Err(stop), Err(expected)) => stop@ == expected,
                _ => false,
            },
    {
        let mut parts: Vec<Part> = Vec::new();
        assert(parts_of(parts@) =~= Seq::empty());
        self.gather(archive, "StaticMeshActor", Role::Actor, bounds, &mut parts)?;
        self.gather(archive, "MovableStaticMeshActor", Role::Actor, bounds, &mut parts)?;
        self.gather(archive, "L2MovableStaticMeshActor", Role::Actor, bounds, &mut parts)?;
        self.gather(archive, "Level", Role::Level, bounds, &mut parts)?;
        self.gather(archive, "BlockingVolume", Role::Volume, bounds, &mut parts)?;
        Ok(parts)
    }

    /// The collision geometry of a map. Solids of its levels count as far as
    /// they lie within bounds.
    pub fn load_map(&self, name: &str, bounds: Box3) -> (result: std::result::Result<
        SourceMap,
        Stop,
    >)
        ensures
            answers(result, map_of(self@, name@, bounds)),
    {
        let ground = self.map_ground(name)?;
        let joined = if ground.terrain.broken_scale() {
            None
        } else {
            Some(self.join_ground(&ground)?)
        };
        let archive = self.archive(name)?;
        let parts = self.all_parts(archive, bounds)?;
        Ok(SourceMap { name: name.to_owned(), ground, joined, parts })
    }
}

/// Whether a request for the geometry of an object is answered as expected.
pub open spec fn part_answers(
    result: std::result::Result<Option<Part>, Stop>,
    expected: Answer<Option<PartModel>>,
) -> bool {
    match (result, expected) {
        (Ok(Some(part)), Ok(Some(wanted))) => part@ == wanted,
        (Ok(None), Ok(None)) => true,
        (Err(stop), Err(wanted)) => stop@ == wanted,
        _ => false,
    }
}

fn place_solid(
    model: &Model,
    bounds: Option<Box3>,
    source: GeometrySource,
    actor: Option<Actor>,
) -> (result: std::result::Result<Option<Part>, Stop>)
    ensures
        part_answers(result, solid_part(model@, bounds, source, actor)),
{
    match model.mesh(bounds) {
        Err(error) => Err(Stop::Failed(error)),
        Ok(None) => Ok(None),
        Ok(Some(mesh)) => Ok(Some(Part { source, mesh, actor })),
    }
}

/// How many triangles a map has, by where they come from.
#[derive(Clone, Copy, Debug, PartialEq, Eq, Structural)]
pub struct GeometryStats {
    pub terrain_triangles: usize,
    pub static_mesh_triangles: usize,
    pub bsp_triangles: usize,
    pub blocking_volume_triangles: usize,
}

impl Default for GeometryStats {
    fn default() -> (stats: Self)
        ensures
            stats == (GeometryStats {
                terrain_triangles: 0,
                static_mesh_triangles: 0,
                bsp_triangles: 0,
                blocking_volume_triangles: 0,
            }),
    {
        GeometryStats {
            terrain_triangles: 0,
            static_mesh_triangles: 0,
            bsp_triangles: 0,
            blocking_volume_triangles: 0,
        }
    }
}

/// The number of triangles of a source.
pub open spec fn triangles(parts: Seq<PartModel>, source: GeometrySource) -> nat
    decreases parts.len(),
{
    if parts.len() == 0 {
        0
    } else {
        triangles(parts.drop_last(), source) + if parts.last().source == source {
            parts.last().mesh.indices.len() / 3
        } else {
            0
        }
    }
}

/// A number, or the largest that a machine counts.
pub open spec fn capped(value: nat) -> int {
    if value <= usize::MAX {
        value as int
    } else {
        usize::MAX as int
    }
}

fn grown(total: usize, more: usize) -> (sum: usize)
    ensures
        sum == capped((total + more) as nat),
{
    if total > usize::MAX - more {
        usize::MAX
    } else {
        total + more
    }
}

impl SourceMap {
    /// Counts the triangles.
    pub fn geometry(&self) -> (stats: GeometryStats)
        ensures
            stats.terrain_triangles == match self@.joined {
                Some(joined) => joined.mesh.indices.len() / 3,
                None => 0,
            },
            stats.static_mesh_triangles == capped(
                triangles(self@.parts, GeometrySource::StaticMesh),
            ),
            stats.bsp_triangles == capped(triangles(self@.parts, GeometrySource::Bsp)),
            stats.blocking_volume_triangles == capped(
                triangles(self@.parts, GeometrySource::BlockingVolume),
            ),
    {
        let mut stats = GeometryStats {
            terrain_triangles: match &self.joined {
                Some(joined) => joined.mesh.indices.len() / 3,
                None => 0,
            },
            static_mesh_triangles: 0,
            bsp_triangles: 0,
            blocking_volume_triangles: 0,
        };
        let mut i: usize = 0;
        while i < self.parts.len()
            invariant
                i <= self.parts@.len(),
                stats.terrain_triangles == (match self@.joined {
                    Some(joined) => joined.mesh.indices.len() / 3,
                    None => 0,
                }),
                stats.static_mesh_triangles == capped(
                    triangles(self@.parts.take(i as int), GeometrySource::StaticMesh),
                ),
                stats.bsp_triangles == capped(
                    triangles(self@.parts.take(i as int), GeometrySource::Bsp),
                ),
                stats.blocking_volume_triangles == capped(
                    triangles(self@.parts.take(i as int), GeometrySource::BlockingVolume),
                ),
            decreases self.parts.len() - i,
        {
            let part = &self.parts[i];
            proof {
                assert(self@.parts.take(i + 1).drop_last() =~= self@.parts.take(i as int));
                assert(self@.parts.take(i + 1).last() == part@);
            }
            let added: usize = part.mesh.indices.len() / 3;
            match part.source {
                GeometrySource::StaticMesh => {
                    stats.static_mesh_triangles = grown(stats.static_mesh_triangles, added);
                },
                GeometrySource::Bsp => {
                    stats.bsp_triangles = grown(stats.bsp_triangles, added);
                },
                GeometrySource::BlockingVolume => {
                    stats.blocking_volume_triangles = grown(
                        stats.blocking_volume_triangles,
                        added,
                    );
                },
            }
            i += 1;
        }
        assert(self@.parts.take(i as int) =~= self@.parts);
        stats
    }
}

} // verus!
