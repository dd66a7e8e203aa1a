//! The objects of a package.

use vstd::prelude::*;
use vstd::slice::slice_subrange;
use vstd::string::StringExecFns;

use crate::error::{AppError, ErrorModel, Result};
use crate::text::same_text;
use crate::unreal::model;
use crate::unreal::model::{Model, SolidModel};
use crate::unreal::objects;
use crate::unreal::objects::{Actor, Brush, Level, Terrain, TerrainModel};
use crate::unreal::package;
use crate::unreal::package::{checked_offset, Archive, ArchiveModel, ExportModel};
use crate::unreal::reader::{Parsed, Reader};
use crate::unreal::static_mesh;
use crate::unreal::static_mesh::{StaticMesh, StaticMeshModel};
use crate::unreal::texture;
use crate::unreal::texture::{Texture, TextureModel};

verus! {

#[derive(Debug)]
pub enum Object {
    Unknown,
    Terrain(Terrain),
    Texture(Texture),
    StaticMesh(StaticMesh),
    Actor(Actor),
    Level(Level),
    Model(Model),
    Brush(Brush),
}

/// What an [`Object`] holds.
#[verifier::ext_equal]
pub enum ObjectModel {
    Unknown,
    Terrain(TerrainModel),
    Texture(TextureModel),
    StaticMesh(StaticMeshModel),
    Actor(Actor),
    Level(Level),
    Model(SolidModel),
    Brush(Brush),
}

impl View for Object {
    type V = ObjectModel;

    open spec fn view(&self) -> ObjectModel {
        match self {
            Object::Unknown => ObjectModel::Unknown,
            Object::Terrain(terrain) => ObjectModel::Terrain(terrain@),
            Object::Texture(texture) => ObjectModel::Texture(texture@),
            Object::StaticMesh(mesh) => ObjectModel::StaticMesh(mesh@),
            Object::Actor(actor) => ObjectModel::Actor(*actor),
            Object::Level(level) => ObjectModel::Level(*level),
            Object::Model(model) => ObjectModel::Model(model@),
            Object::Brush(brush) => ObjectModel::Brush(*brush),
        }
    }
}

impl ObjectModel {
    /// What the object is called in messages.
    pub open spec fn kind(self) -> Seq<char> {
        match self {
            ObjectModel::Unknown => "unknown object"@,
            ObjectModel::Terrain(_) => "TerrainInfo"@,
            ObjectModel::Texture(_) => "Texture"@,
            ObjectModel::StaticMesh(_) => "StaticMesh"@,
            ObjectModel::Actor(_) => "StaticMeshActor"@,
            ObjectModel::Level(_) => "Level"@,
            ObjectModel::Model(_) => "Model"@,
            ObjectModel::Brush(_) => "Brush"@,
        }
    }
}

impl Object {
    /// What the object is called in messages.
    pub fn kind(&self) -> (kind: &'static str)
        ensures
            kind@ == self@.kind(),
    {
        match self {
            Object::Unknown => "unknown object",
            Object::Terrain(_) => "TerrainInfo",
            Object::Texture(_) => "Texture",
            Object::StaticMesh(_) => "StaticMesh",
            Object::Actor(_) => "StaticMeshActor",
            Object::Level(_) => "Level",
            Object::Model(_) => "Model",
            Object::Brush(_) => "Brush",
        }
    }
}

/// What a read gave, without the position behind it.
pub open spec fn value<T>(parsed: Parsed<T>) -> std::result::Result<T, ErrorModel> {
    match parsed {
        Ok((value, _)) => Ok(value),
        Err(error) => Err(error),
    }
}

pub open spec fn is_actor_class(class: Seq<char>) -> bool {
    class == "StaticMeshActor"@ || class == "MovableStaticMeshActor"@ || class
        == "L2MovableStaticMeshActor"@
}

/// The object of a class in bytes. Classes that are not read give no object.
pub open spec fn object_at(
    archive: ArchiveModel,
    export: ExportModel,
    bytes: Seq<u8>,
    pos: int,
) -> std::result::Result<ObjectModel, ErrorModel> {
    let class = export.class_name;
    let flags = export.flags;
    if class == "TerrainInfo"@ {
        match value(objects::terrain_at(archive, bytes, pos, flags)) {
            Ok(terrain) => Ok(ObjectModel::Terrain(terrain)),
            Err(error) => Err(error),
        }
    } else if class == "Texture"@ {
        match value(texture::texture_at(archive, bytes, pos, flags)) {
            Ok(texture) => Ok(ObjectModel::Texture(texture)),
            Err(error) => Err(error),
        }
    } else if class == "StaticMesh"@ {
        match value(static_mesh::static_mesh_at(archive, bytes, pos, flags)) {
            Ok(mesh) => Ok(ObjectModel::StaticMesh(mesh)),
            Err(error) => Err(error),
        }
    } else if is_actor_class(class) {
        match value(objects::actor_at(archive, bytes, pos, flags)) {
            Ok(actor) => Ok(ObjectModel::Actor(actor)),
            Err(error) => Err(error),
        }
    } else if class == "Level"@ {
        match value(objects::level_at(archive, bytes, pos, flags)) {
            Ok(level) => Ok(ObjectModel::Level(level)),
            Err(error) => Err(error),
        }
    } else if class == "Model"@ {
        match value(model::model_at(archive, bytes, pos, flags)) {
            Ok(model) => Ok(ObjectModel::Model(model)),
            Err(error) => Err(error),
        }
    } else if class == "Brush"@ || class == "BlockingVolume"@ {
        match value(objects::brush_at(archive, bytes, pos, flags)) {
            Ok(brush) => Ok(ObjectModel::Brush(brush)),
            Err(error) => Err(error),
        }
    } else {
        Ok(ObjectModel::Unknown)
    }
}

/// An exported object. An empty one is unknown.
pub open spec fn object_in(archive: ArchiveModel, index: int) -> std::result::Result<
    ObjectModel,
    ErrorModel,
> {
    if !(0 <= index < archive.exports.len()) {
        Err(ErrorModel::InvalidData("export index out of bounds in "@ + archive.name))
    } else {
        let export = archive.exports[index];
        if export.serial_size <= 0 {
            Ok(ObjectModel::Unknown)
        } else {
            match package::offset_in(export.serial_offset as int, archive.data.len() as int) {
                Err(error) => Err(error),
                Ok(start) => if start + export.serial_size > archive.data.len() {
                    Err(
                        ErrorModel::InvalidData(
                            "invalid serial range for "@ + archive.name + "."@
                                + export.object_name,
                        ),
                    )
                } else {
                    object_at(
                        archive,
                        export,
                        archive.data.take(start + export.serial_size),
                        start,
                    )
                },
            }
        }
    }
}

/// The exported objects of a class, from an export on.
pub open spec fn objects_from(
    archive: ArchiveModel,
    class: Seq<char>,
    index: nat,
    done: Seq<ObjectModel>,
) -> std::result::Result<Seq<ObjectModel>, ErrorModel>
    decreases archive.exports.len() - index,
{
    if index >= archive.exports.len() {
        Ok(done)
    } else if archive.exports[index as int].class_name == class {
        match object_in(archive, index as int) {
            Err(error) => Err(error),
            Ok(object) => objects_from(archive, class, index + 1, done.push(object)),
        }
    } else {
        objects_from(archive, class, index + 1, done)
    }
}

/// The exported objects of a class.
pub open spec fn objects_named(archive: ArchiveModel, class: Seq<char>) -> std::result::Result<
    Seq<ObjectModel>,
    ErrorModel,
> {
    objects_from(archive, class, 0, Seq::empty())
}

pub open spec fn objects_of(list: Seq<Object>) -> Seq<ObjectModel> {
    list.map_values(|object: Object| object@)
}

impl Archive {
    fn parse_object(&self, index: usize, end: usize, start: usize) -> (result: Result<Object>)
        requires
            index < self.exports@.len(),
            start <= end <= self.data@.len(),
        ensures
            match (
                result,
                object_at(
                    self@,
                    self@.exports[index as int],
                    self@.data.take(end as int),
                    start as int,
                ),
            ) {
                (Ok(object), Ok(expected)) => object@ == expected,
                (Err(error), Err(expected)) => error@ == expected,
                _ => false,
            },
    {
        let export = &self.exports[index];
        let class = export.class_name.as_str();
        let flags: u32 = export.flags;
        let bytes = slice_subrange(self.data.as_slice(), 0, end);
        assert(bytes@ =~= self@.data.take(end as int));
        let mut reader = Reader::new(bytes, start);
        assert(self@.exports[index as int] == export@);
        if same_text(class, "TerrainInfo") {
            Ok(Object::Terrain(Terrain::read(self, &mut reader, flags)?))
        } else if same_text(class, "Texture") {
            Ok(Object::Texture(Texture::read(self, &mut reader, flags)?))
        } else if same_text(class, "StaticMesh") {
            Ok(Object::StaticMesh(StaticMesh::read(self, &mut reader, flags)?))
        } else if same_text(class, "StaticMeshActor") || same_text(class, "MovableStaticMeshActor")
            || same_text(class, "L2MovableStaticMeshActor") {
            Ok(Object::Actor(Actor::read(self, &mut reader, flags)?))
        } else if same_text(class, "Level") {
            Ok(Object::Level(Level::read(self, &mut reader, flags)?))
        } else if same_text(class, "Model") {
            Ok(Object::Model(Model::read(self, &mut reader, flags)?))
        } else if same_text(class, "Brush") || same_text(class, "BlockingVolume") {
            Ok(Object::Brush(Brush::read(self, &mut reader, flags)?))
        } else {
            Ok(Object::Unknown)
        }
    }

    /// Reads an exported object.
    pub fn load_export(&self, index: usize) -> (result: Result<Object>)
        ensures
            match (result, object_in(self@, index as int)) {
                (Ok(object), Ok(expected)) => object@ == expected,
                (Err(error), Err(expected)) => error@ == expected,
                _ => false,
            },
    {
        if index >= self.exports.len() {
            let mut text = "export index out of bounds in ".to_owned();
            text.append(self.name.as_str());
            return Err(AppError::InvalidData(text));
        }
        let export = &self.exports[index];
        if export.serial_size <= 0 {
            return Ok(Object::Unknown);
        }
        assert(self@.exports[index as int] == export@);
        let start: usize = checked_offset(export.serial_offset, self.data.len())?;
        let size: usize = export.serial_size as usize;
        if self.data.len() - start < size {
            let mut text = "invalid serial range for ".to_owned();
            text.append(self.name.as_str());
            text.append(".");
            text.append(export.object_name.as_str());
            return Err(AppError::InvalidData(text));
        }
        self.parse_object(index, start + size, start)
    }

    /// Reads the exported objects of a class.
    pub fn objects_named(&self, class: &str) -> (result: Result<Vec<Object>>)
        ensures
            match (result, objects_named(self@, class@)) {
                (Ok(objects), Ok(expected)) => objects_of(objects@) == expected,
                (Err(error), Err(expected)) => error@ == expected,
                _ => false,
            },
    {
        let mut objects: Vec<Object> = Vec::new();
        let mut index: usize = 0;
        assert(objects_of(objects@) =~= Seq::empty());
        while index < self.exports.len()
            invariant
                index <= self.exports@.len(),
                objects_named(self@, class@) == objects_from(
                    self@,
                    class@,
                    index as nat,
                    objects_of(objects@),
                ),
            decreases self.exports.len() - index,
        {
            assert(self@.exports[index as int] == self.exports@[index as int]@);
            if same_text(self.exports[index].class_name.as_str(), class) {
                let object = self.load_export(index)?;
                let ghost before = objects_of(objects@);
                objects.push(object);
                assert(objects_of(objects@) =~= before.push(object@));
            }
            index += 1;
        }
        Ok(objects)
    }
}

} // verus!
