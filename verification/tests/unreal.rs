use geodata_editor::error::AppError;
use geodata_editor::unreal::loader::{candidates, GeometrySource, PackageLoader, Stop};
use geodata_editor::unreal::model::{Box3, BspNode, BspSurface, BspVertex, Model};
use geodata_editor::unreal::object::Object;
use geodata_editor::unreal::objects::Terrain;
use geodata_editor::unreal::package::{decrypt, Archive};
use geodata_editor::unreal::properties::read_properties;
use geodata_editor::unreal::reader::{Reader, Vector};
use geodata_editor::unreal::static_mesh::{StaticMesh, StaticSurface, Vertex};
use geodata_editor::unreal::terrain::{bit, terrain_mesh, Place, Slope, Tile};
use geodata_editor::unreal::texture::{skip_material_data, Texture};

#[test]
fn reads_compact_indices() {
    let mut reader = Reader::new(&[0x3f, 0x41, 0x01, 0xc1, 0x01], 0);
    assert_eq!(reader.index().unwrap(), 63);
    assert_eq!(reader.index().unwrap(), 65);
    assert_eq!(reader.index().unwrap(), -65);
}

#[test]
fn decrypts_v111_payload() {
    let mut encrypted =
        b"L\x00i\x00n\x00e\x00a\x00g\x00e\x002\x00V\x00e\x00r\x001\x001\x001\x00".to_vec();
    encrypted.extend([0xac ^ b'a', 0xac ^ b'b']);
    assert_eq!(decrypt("geodata-editor-v111.unr", &encrypted).unwrap(), b"ab");
}

fn encrypted(version: &str, payload: &[u8]) -> Vec<u8> {
    let mut bytes = Vec::new();
    for letter in "Lineage2Ver".bytes().chain(version.bytes()) {
        bytes.extend([letter, 0]);
    }
    bytes.extend(payload);
    bytes
}

#[test]
fn the_key_of_version_121_comes_from_the_lower_case_file_name() {
    let key = "22_22.unr".bytes().map(u32::from).sum::<u32>() as u8;
    let bytes = encrypted("121", &[key ^ b'o', key ^ b'k']);
    assert_eq!(decrypt("C:/L2/Maps/22_22.UNR", &bytes).unwrap(), b"ok");
}

#[test]
fn other_encryptions_are_refused() {
    assert!(matches!(
        decrypt("x.unr", &encrypted("413", b"")),
        Err(AppError::Unsupported(message)) if message == "unsupported Lineage 2 encryption version: 413"
    ));
    assert!(matches!(
        decrypt("x.unr", &encrypted("+11", b"")),
        Err(AppError::Unsupported(message)) if message.ends_with(": 11")
    ));
    assert!(matches!(
        decrypt("x.unr", &encrypted("1a1", b"")),
        Err(AppError::InvalidData(message)) if message == "invalid encryption version: x.unr"
    ));
    assert!(matches!(
        decrypt("x.unr", b"plain"),
        Err(AppError::InvalidData(message)) if message == "can't detect Lineage 2 encryption version: x.unr"
    ));
    assert!(matches!(
        decrypt("..", &encrypted("121", b"")),
        Err(AppError::InvalidData(message)) if message == "non-Unicode package filename: .."
    ));
}

#[test]
fn long_indices_take_four_continuation_bytes_at_most() {
    let mut reader = Reader::new(&[0x40, 0x80, 0x80, 0x80, 0x88, 7], 0);
    assert_eq!(reader.index().unwrap(), 8 << 27);
    assert_eq!(reader.pos, 5);
    let mut reader = Reader::new(&[0xc0, 0x80, 0x80, 0x80, 0x10], 0);
    assert_eq!(reader.index().unwrap(), i32::MIN);
    assert!(Reader::new(&[0x40], 0).index().is_err());
}

#[test]
fn numbers_are_little_endian() {
    let bytes = [0xfe, 0xff, 1, 0, 0, 0x80, 0x90, 2];
    let mut reader = Reader::new(&bytes, 0);
    assert_eq!(reader.i16().unwrap(), -2);
    assert_eq!(reader.i32().unwrap(), 0x8000_0001_u32 as i32);
    assert_eq!(reader.array_index().unwrap(), 0x290);
    assert_eq!(reader.remaining(), 0);
    assert!(reader.u8().is_err());
}

#[test]
fn failed_reads_stop_behind_what_was_whole() {
    let bytes = [1, 2, 3, 4, 5, 6];
    let mut reader = Reader::new(&bytes, 0);
    assert!(reader.vector().is_err());
    assert_eq!(reader.pos, 4);
    assert!(reader.u32().is_err());
    assert_eq!(reader.pos, 4);
    let mut reader = Reader::new(&[3, b'a'], 0);
    assert!(reader.string().is_err());
    assert_eq!(reader.pos, 1);
    let mut reader = Reader::new(&[0x40, 0x80], 0);
    assert!(reader.index().is_err());
    assert_eq!(reader.pos, 2);
    let mut reader = Reader::new(&[0x81], 0);
    assert!(reader.count("row").is_err());
    assert_eq!(reader.pos, 1);
}

#[test]
fn strings_lose_their_closing_zero() {
    let mut reader = Reader::new(&[3, b'a', b'b', 0, 1, b'c'], 0);
    assert_eq!(reader.string().unwrap(), "ab");
    assert_eq!(reader.string().unwrap(), "c");
    assert!(matches!(
        Reader::new(&[0x81, 0], 0).string(),
        Err(AppError::Unsupported(message))
            if message
                == "UTF-16 Unreal strings are not supported by the current C++ reader either"
    ));
    assert!(matches!(
        Reader::new(&[1, 0xff], 0).string(),
        Err(AppError::InvalidData(message)) if message == "invalid ANSI string in Unreal package"
    ));
}

#[test]
fn bits_behind_the_end_of_a_bitmap_are_clear() {
    assert!(bit(&[0b100], 2));
    assert!(!bit(&[0b100], 1));
    assert!(bit(&[0, 1], 8));
    assert!(!bit(&[255], 8));
}

/// A compact index.
fn index(value: i32) -> Vec<u8> {
    let mut rest = value.unsigned_abs();
    let mut first = (rest & 0x3f) as u8;
    rest >>= 6;
    if value < 0 {
        first |= 0x80;
    }
    let mut bytes = Vec::new();
    if rest == 0 {
        bytes.push(first);
        return bytes;
    }
    bytes.push(first | 0x40);
    while rest > 0 {
        let more = if rest > 0x7f { 0x80 } else { 0 };
        bytes.push((rest & 0x7f) as u8 | more);
        rest >>= 7;
    }
    bytes
}

/// Puts a package together.
struct Builder {
    names: Vec<String>,
    imports: Vec<(String, i32, String)>,
    exports: Vec<(i32, String, Vec<u8>)>,
}

impl Builder {
    fn new() -> Self {
        Builder {
            names: vec!["None".into()],
            imports: Vec::new(),
            exports: Vec::new(),
        }
    }

    fn name(&mut self, name: &str) -> i32 {
        if let Some(place) = self.names.iter().position(|known| known == name) {
            return place as i32;
        }
        self.names.push(name.into());
        self.names.len() as i32 - 1
    }

    fn named(&mut self, name: &str) -> Vec<u8> {
        index(self.name(name))
    }

    /// An import, and the index that refers to it.
    fn import(&mut self, class: &str, package: i32, object: &str) -> i32 {
        self.imports.push((class.into(), package, object.into()));
        -(self.imports.len() as i32)
    }

    /// An export, and the index that refers to it.
    fn export(&mut self, class: i32, object: &str, data: Vec<u8>) -> i32 {
        self.exports.push((class, object.into(), data));
        self.exports.len() as i32
    }

    fn byte(&mut self, name: &str, value: u8) -> Vec<u8> {
        let mut bytes = self.named(name);
        bytes.extend([0x01, value]);
        bytes
    }

    fn integer(&mut self, name: &str, value: i32) -> Vec<u8> {
        let mut bytes = self.named(name);
        bytes.push(0x22);
        bytes.extend(value.to_le_bytes());
        bytes
    }

    fn flag(&mut self, name: &str, value: bool) -> Vec<u8> {
        let mut bytes = self.named(name);
        bytes.push(if value { 0x83 } else { 0x03 });
        bytes
    }

    fn object(&mut self, name: &str, value: i32) -> Vec<u8> {
        let mut bytes = self.named(name);
        bytes.push(0x05);
        bytes.extend(index(value));
        bytes
    }

    fn vector(&mut self, name: &str, value: [f32; 3]) -> Vec<u8> {
        let mut bytes = self.named(name);
        bytes.push(0x3a);
        bytes.extend(self.named("Vector"));
        for part in value {
            bytes.extend(part.to_le_bytes());
        }
        bytes
    }

    fn array(&mut self, name: &str, count: i32, content: &[u8]) -> Vec<u8> {
        let mut bytes = self.named(name);
        let count = index(count);
        bytes.push(0x59);
        bytes.push((count.len() + content.len()) as u8);
        bytes.extend(count);
        bytes.extend(content);
        bytes
    }

    fn finish(mut self) -> Vec<u8> {
        let objects: Vec<i32> = self
            .exports
            .clone()
            .iter()
            .map(|(_, object, _)| self.name(object))
            .collect();
        let imports: Vec<(i32, i32, i32)> = self
            .imports
            .clone()
            .iter()
            .map(|(class, package, object)| (self.name(class), *package, self.name(object)))
            .collect();
        let mut names = Vec::new();
        for name in &self.names {
            names.extend(index(name.len() as i32 + 1));
            names.extend(name.bytes());
            names.push(0);
            names.extend([0; 4]);
        }
        let mut import_table = Vec::new();
        for (class, package, object) in imports {
            import_table.extend(index(0));
            import_table.extend(index(class));
            import_table.extend(package.to_le_bytes());
            import_table.extend(index(object));
        }
        let start = 56 + names.len() + import_table.len();
        let mut data: Vec<u8> = Vec::new();
        let mut export_table = Vec::new();
        for ((class, _, content), object) in self.exports.iter().zip(objects) {
            export_table.extend(index(*class));
            export_table.extend(index(0));
            export_table.extend(0_i32.to_le_bytes());
            export_table.extend(index(object));
            export_table.extend(0_u32.to_le_bytes());
            export_table.extend(index(content.len() as i32));
            if !content.is_empty() {
                export_table.extend(index((start + data.len()) as i32));
                data.extend(content);
            }
        }
        let mut bytes = Vec::new();
        bytes.extend((-1_641_380_927_i32).to_le_bytes());
        bytes.extend(100_i16.to_le_bytes());
        bytes.extend(10_i16.to_le_bytes());
        bytes.extend(0_u32.to_le_bytes());
        bytes.extend((self.names.len() as i32).to_le_bytes());
        bytes.extend(56_i32.to_le_bytes());
        bytes.extend((self.exports.len() as i32).to_le_bytes());
        bytes.extend(((start + data.len()) as i32).to_le_bytes());
        bytes.extend((self.imports.len() as i32).to_le_bytes());
        bytes.extend(((56 + names.len()) as i32).to_le_bytes());
        bytes.extend([0; 16]);
        bytes.extend(0_i32.to_le_bytes());
        bytes.extend(names);
        bytes.extend(import_table);
        bytes.extend(data);
        bytes.extend(export_table);
        bytes
    }
}

fn height_texture(builder: &mut Builder, side: i32, heights: &[u16]) -> Vec<u8> {
    let mut bytes = builder.byte("Format", 10);
    bytes.extend(builder.integer("USize", side));
    bytes.extend(builder.integer("VSize", side));
    bytes.extend(index(0));
    bytes.extend(index(heights.len() as i32 * 2));
    for height in heights {
        bytes.extend(height.to_le_bytes());
    }
    bytes
}

fn terrain_info(builder: &mut Builder, texture: i32, x: i32, y: i32, scale: f32) -> Vec<u8> {
    let mut bytes = builder.object("TerrainMap", texture);
    bytes.extend(builder.vector("TerrainScale", [scale, scale, scale]));
    bytes.extend(builder.array("QuadVisibilityBitmap", 2, &[255, 255]));
    bytes.extend(builder.array("EdgeTurnBitmap", 2, &[1, 0]));
    bytes.extend(builder.integer("MapX", x));
    bytes.extend(builder.integer("MapY", y));
    bytes.extend(index(0));
    bytes
}

fn static_mesh(builder: &mut Builder, solid: bool) -> Vec<u8> {
    let mut material = builder.flag("EnableCollision", solid);
    material.extend(index(0));
    let mut bytes = builder.array("Materials", 1, &material);
    bytes.extend(index(0));
    bytes.extend([0; 41]);
    bytes.extend(index(1));
    bytes.extend([0, 0, 0, 0, 0, 0, 0, 0, 0, 0, 0, 0, 1, 0]);
    bytes.extend([0; 25]);
    bytes.extend(index(3));
    for vertex in 0..3_u32 {
        for part in 0..6_u32 {
            bytes.extend((vertex * 6 + part).to_le_bytes());
        }
    }
    bytes.extend([0; 4]);
    bytes.extend(index(0));
    bytes.extend([0; 4]);
    bytes.extend(index(0));
    bytes.extend([0; 4]);
    bytes.extend(index(0));
    bytes.extend(index(3));
    for corner in [0_u16, 1, 2] {
        bytes.extend(corner.to_le_bytes());
    }
    bytes.extend([0; 4]);
    bytes.extend(index(0));
    bytes.extend([0; 4]);
    bytes.extend(index(0));
    bytes
}

/// A map whose terrain is four by four, with an actor whose mesh lies in
/// another package.
fn map_package() -> Vec<u8> {
    let mut builder = Builder::new();
    let texture_class = builder.import("Class", 0, "Texture");
    let terrain_class = builder.import("Class", 0, "TerrainInfo");
    let actor_class = builder.import("Class", 0, "StaticMeshActor");
    let rocks = builder.import("Package", 0, "Rocks");
    let mesh = builder.import("StaticMesh", rocks, "Stone");
    let heights: Vec<u16> = (0..16).collect();
    let texture = height_texture(&mut builder, 4, &heights);
    let texture = builder.export(texture_class, "Heights", texture);
    let terrain = terrain_info(&mut builder, texture, 22, 22, 128.0);
    builder.export(terrain_class, "Ground", terrain);
    let mut actor = builder.object("StaticMesh", mesh);
    actor.extend(builder.vector("Location", [1.0, 2.0, 3.0]));
    actor.extend(index(0));
    builder.export(actor_class, "Actor", actor);
    let mut hidden = builder.object("StaticMesh", mesh);
    hidden.extend(builder.flag("bHidden", true));
    hidden.extend(index(0));
    builder.export(actor_class, "Hidden", hidden);
    builder.finish()
}

fn rocks_package(solid: bool) -> Vec<u8> {
    let mut builder = Builder::new();
    let class = builder.import("Class", 0, "StaticMesh");
    let mesh = static_mesh(&mut builder, solid);
    builder.export(class, "Stone", mesh);
    builder.finish()
}

const BOUNDS: Box3 = Box3 {
    min: Vector {
        x: 0xc700_0000,
        y: 0xc700_0000,
        z: 0xc700_0000,
    },
    max: Vector {
        x: 0x4700_0000,
        y: 0x4700_0000,
        z: 0x4700_0000,
    },
};

fn needed<T>(result: Result<T, Stop>) -> String {
    match result {
        Err(Stop::Needs(name)) => name,
        Err(Stop::Failed(error)) => panic!("{}", error.message()),
        Ok(_) => panic!("nothing is needed"),
    }
}

#[test]
fn a_package_lists_its_names_imports_and_exports() {
    let archive = Archive::parse("22_22", map_package()).unwrap();
    assert_eq!(archive.file_version, 100);
    assert_eq!(archive.names[0], "None");
    assert_eq!(archive.imports.len(), 5);
    assert_eq!(archive.imports[4].object_name, "Stone");
    assert_eq!(archive.exports.len(), 4);
    assert_eq!(archive.exports[1].class_name, "TerrainInfo");
    assert!(matches!(
        archive.load_export(2),
        Ok(Object::Actor(actor)) if actor.location.x == 1.0_f32.to_bits()
            && actor.draw_scale == 1.0_f32.to_bits() && actor.is_solid()
    ));
    assert!(matches!(
        archive.load_export(9),
        Err(AppError::InvalidData(message)) if message == "export index out of bounds in 22_22"
    ));
    assert_eq!(archive.objects_named("StaticMeshActor").unwrap().len(), 2);
}

#[test]
fn damaged_packages_are_refused() {
    assert!(matches!(
        Archive::parse("x", vec![0; 60]),
        Err(AppError::InvalidData(message)) if message == "invalid Lineage II package magic: x"
    ));
    let whole = map_package();
    for length in [3, 30, 55] {
        assert!(matches!(
            Archive::parse("x", whole[..length].to_vec()),
            Err(AppError::InvalidData(message)) if message == "unexpected EOF in Unreal package"
        ));
    }
    let mut negative = whole.clone();
    negative[52..56].copy_from_slice(&(-1_i32).to_le_bytes());
    assert!(matches!(
        Archive::parse("x", negative),
        Err(AppError::InvalidData(message)) if message == "negative package generation count"
    ));
    let mut crowded = whole.clone();
    crowded[12..16].copy_from_slice(&10_000_001_i32.to_le_bytes());
    assert!(matches!(
        Archive::parse("x", crowded),
        Err(AppError::InvalidData(message)) if message == "invalid name count: 10000001"
    ));
    let mut outside = whole.clone();
    outside[24..28].copy_from_slice(&i32::MAX.to_le_bytes());
    assert!(matches!(
        Archive::parse("x", outside),
        Err(AppError::InvalidData(message)) if message == "package offset beyond EOF"
    ));
    let mut before = whole;
    before[32..36].copy_from_slice(&(-4_i32).to_le_bytes());
    assert!(matches!(
        Archive::parse("x", before),
        Err(AppError::InvalidData(message)) if message == "negative package offset"
    ));
}

#[test]
fn a_map_asks_for_the_packages_that_it_needs_one_by_one() {
    let mut loader = PackageLoader::new();
    assert_eq!(needed(loader.map_ground("22_22")), "22_22");
    loader.add("22_22", Some(Archive::parse("22_22", map_package()).unwrap()));
    let ground = loader.map_ground("22_22").unwrap();
    assert_eq!(ground.texture.heights().unwrap()[5], 5);
    assert!(!ground.terrain.broken_scale());

    for neighbour in ["22_23", "23_22", "23_23"] {
        assert_eq!(needed(loader.load_map("22_22", BOUNDS)), neighbour);
        loader.add(neighbour, None);
    }
    assert_eq!(needed(loader.load_map("22_22", BOUNDS)), "Rocks");
    loader.add("Rocks", Some(Archive::parse("Rocks", rocks_package(true)).unwrap()));
    let map = loader.load_map("22_22", BOUNDS).unwrap();
    assert_eq!(loader.loaded_package_count(), 2);
    assert_eq!(map.parts.len(), 1);
    assert_eq!(map.parts[0].source, GeometrySource::StaticMesh);
    assert_eq!(map.parts[0].mesh.indices, [2, 1, 0]);
    assert_eq!(map.parts[0].mesh.vertices[1].position, Vector { x: 6, y: 7, z: 8 });
    let stats = map.geometry();
    assert_eq!(stats.terrain_triangles, 18);
    assert_eq!(stats.static_mesh_triangles, 1);
    assert_eq!(stats.bsp_triangles, 0);
    let joined = map.joined.unwrap();
    assert_eq!(joined.mesh.places.len(), 16);
    assert_eq!(joined.mesh.indices[..6], [4, 0, 1, 4, 1, 5]);
    assert_eq!(joined.mesh.indices[6..12], [1, 2, 6, 1, 6, 5]);

    // What was answered stays so when more packages are known.
    loader.add("Elsewhere", None);
    assert_eq!(loader.load_map("22_22", BOUNDS).unwrap().parts.len(), 1);
}

#[test]
fn an_actor_without_its_mesh_is_left_out() {
    let mut loader = PackageLoader::new();
    loader.add("22_22", Some(Archive::parse("22_22", map_package()).unwrap()));
    for name in ["22_23", "23_22", "23_23", "Rocks"] {
        loader.add(name, None);
    }
    assert!(loader.load_map("22_22", BOUNDS).unwrap().parts.is_empty());
}

#[test]
fn a_mesh_that_stops_nobody_has_no_triangles() {
    let mut loader = PackageLoader::new();
    loader.add("22_22", Some(Archive::parse("22_22", map_package()).unwrap()));
    for name in ["22_23", "23_22", "23_23"] {
        loader.add(name, None);
    }
    loader.add("Rocks", Some(Archive::parse("Rocks", rocks_package(false)).unwrap()));
    let map = loader.load_map("22_22", BOUNDS).unwrap();
    assert_eq!(map.parts.len(), 1);
    assert!(map.parts[0].mesh.indices.is_empty());
}

#[test]
fn a_missing_map_is_named() {
    let mut loader = PackageLoader::new();
    loader.add("9_9", None);
    assert!(matches!(
        loader.load_map("9_9", BOUNDS),
        Err(Stop::Failed(AppError::Missing(message))) if message == "can't find package: 9_9"
    ));
    loader.add("1_1", Some(Archive::parse("1_1", Builder::new().finish()).unwrap()));
    assert!(matches!(
        loader.load_map("1_1", BOUNDS),
        Err(Stop::Failed(AppError::InvalidData(message))) if message == "no TerrainInfo in package: 1_1"
    ));
}

#[test]
fn packages_lie_in_four_directories() {
    let files = candidates("Rocks");
    assert_eq!(files[0], ("Maps".to_owned(), "Rocks.unr".to_owned()));
    assert_eq!(files[1], ("StaticMeshes".to_owned(), "Rocks.usx".to_owned()));
    assert_eq!(files[2], ("Textures".to_owned(), "Rocks.utx".to_owned()));
    assert_eq!(files[3], ("SysTextures".to_owned(), "Rocks.utx".to_owned()));
    assert_eq!(files.len(), 4);
}

#[test]
fn the_last_of_several_values_counts() {
    let names: Vec<String> = ["None", "A", "B"].iter().map(|name| name.to_string()).collect();
    let mut bytes = vec![1, 0x22];
    bytes.extend(7_i32.to_le_bytes());
    bytes.extend([1, 0x22]);
    bytes.extend(9_i32.to_le_bytes());
    bytes.extend([2, 0x83, 0]);
    let mut reader = Reader::new(&bytes, 0);
    let properties = read_properties(&mut reader, &names, 0).unwrap();
    assert_eq!(properties.integer("A"), Some(9));
    assert_eq!(properties.byte("A"), None);
    assert!(properties.boolean("B"));
    assert!(!properties.boolean("C"));
    assert!(properties.boolean_or("C", true));
    assert_eq!(reader.remaining(), 0);

    let mut reader = Reader::new(&[9, 0], 0);
    assert!(matches!(
        read_properties(&mut reader, &names, 0),
        Err(AppError::InvalidData(message)) if message == "name index out of bounds: 9"
    ));
}

#[test]
fn native_objects_have_no_properties_behind_their_state() {
    let bytes = [1, 0, 0, 0, 0, 0, 0, 0, 0, 0, 0, 0, 0, 0, 5];
    let mut reader = Reader::new(&bytes, 0);
    let properties = read_properties(&mut reader, &vec![], 0x0600_0000).unwrap();
    assert!(properties.entries.is_empty());
    assert_eq!(reader.remaining(), 0);
}

#[test]
fn material_data_depend_on_the_version() {
    let bytes = [0; 64];
    for (file, license, size) in [(122, 40, 0), (123, 15, 0), (123, 16, 4), (130, 29, 4)] {
        let mut reader = Reader::new(&bytes, 0);
        skip_material_data(&mut reader, file, license).unwrap();
        assert_eq!(reader.pos, size);
    }
    let bytes = [0; 2048];
    let mut reader = Reader::new(&bytes, 0);
    skip_material_data(&mut reader, 123, 33).unwrap();
    assert_eq!(reader.pos, 4 + 1 + 6 + 12 + 8 * 128 + 8 + 12 + 17 + 4);
    let mut reader = Reader::new(&bytes, 0);
    skip_material_data(&mut reader, 130, 37).unwrap();
    assert_eq!(reader.pos, 92 + 1 + 1 + 4);
}

fn heights(u_size: i32, v_size: i32, values: &[u16]) -> Texture {
    Texture {
        format: 10,
        u_size,
        v_size,
        mips: vec![values.iter().flat_map(|value| value.to_le_bytes()).collect()],
    }
}

fn terrain(visibility: &[u8], turn: &[u8]) -> Terrain {
    let names = vec!["None".to_owned(), "TerrainMap".to_owned()];
    let archive = Archive {
        name: "t".into(),
        data: vec![],
        file_version: 100,
        license_version: 10,
        names,
        imports: vec![],
        exports: vec![],
    };
    let mut terrain = Terrain::read(&archive, &mut Reader::new(&[1, 0x05, 3, 0], 0), 0).unwrap();
    terrain.quad_visibility = visibility.to_vec();
    terrain.edge_turn = turn.to_vec();
    terrain
}

#[test]
fn a_terrain_is_joined_to_its_neighbours() {
    let main = heights(2, 2, &[10, 20, 30, 40]);
    let south = heights(2, 2, &[50, 60, 0, 0]);
    let east = heights(2, 2, &[70, 0, 80, 0]);
    let corner = heights(2, 2, &[90, 0, 0, 0]);
    let mesh = terrain_mesh(
        &terrain(&[1], &[0]),
        &main,
        Some(&south),
        Some(&east),
        Some(&corner),
    )
    .unwrap();
    assert_eq!(mesh.places.len(), 9);
    assert_eq!(
        mesh.places[4],
        Place {
            x: 0,
            y: 2,
            height: 50,
            tile: Tile::South
        }
    );
    assert_eq!(
        mesh.places[7],
        Place {
            x: 2,
            y: 1,
            height: 80,
            tile: Tile::East
        }
    );
    assert_eq!(mesh.places[8].height, 90);
    assert_eq!(mesh.indices[..6], [0, 1, 3, 0, 3, 2]);
    assert_eq!(mesh.indices[6..12], [2, 3, 4, 3, 5, 4]);
    assert_eq!(mesh.indices[12..18], [1, 6, 3, 3, 6, 7]);
    assert_eq!(mesh.indices[18..], [3, 7, 8, 3, 8, 4]);
    // Every vertex falls as the ground does where it stands.
    assert_eq!(
        mesh.slopes[3],
        Some(Slope {
            across: 30 - 80,
            down: 20 - 60
        })
    );
    assert_eq!(
        mesh.slopes[8],
        Some(Slope {
            across: 60 - 90,
            down: 80 - 90
        })
    );
    assert!(mesh.slopes.iter().all(Option::is_some));
}

#[test]
fn terrains_that_do_not_fit_are_refused() {
    let plain = terrain(&[], &[]);
    let main = heights(2, 2, &[0; 4]);
    let message = |result: Result<geodata_editor::unreal::terrain::TerrainMesh, AppError>| {
        result.unwrap_err().message().to_owned()
    };
    assert_eq!(
        message(terrain_mesh(&plain, &heights(-1, 2, &[]), None, None, None)),
        "negative terrain width"
    );
    assert_eq!(
        message(terrain_mesh(&plain, &heights(2, -1, &[]), None, None, None)),
        "negative terrain height"
    );
    assert_eq!(
        message(terrain_mesh(&plain, &heights(1, 2, &[0; 2]), None, None, None)),
        "terrain must be at least 2x2"
    );
    assert_eq!(
        message(terrain_mesh(&plain, &heights(2, 2, &[0; 3]), None, None, None)),
        "TerrainMap mip is truncated"
    );
    assert_eq!(
        message(terrain_mesh(&plain, &main, Some(&heights(3, 1, &[0; 3])), None, None)),
        "south terrain width differs from map terrain"
    );
    assert_eq!(
        message(terrain_mesh(&plain, &main, None, Some(&heights(1, 3, &[0; 3])), None)),
        "east terrain height differs from map terrain"
    );
    assert_eq!(
        message(terrain_mesh(&plain, &main, Some(&heights(2, 0, &[])), None, None)),
        "neighbouring terrain is too small"
    );
    let mut coloured = heights(2, 2, &[0; 4]);
    coloured.format = 3;
    assert_eq!(
        message(terrain_mesh(&plain, &coloured, None, None, None)),
        "TerrainMap has unsupported format 3 (expected G16)"
    );
    let mut empty = heights(2, 2, &[]);
    empty.mips.clear();
    assert_eq!(
        message(terrain_mesh(&plain, &empty, None, None, None)),
        "TerrainMap has no mip"
    );
    let mesh = terrain_mesh(&plain, &main, None, None, None).unwrap();
    assert!(mesh.indices.is_empty(), "hidden quads have no triangles");
}

fn point(value: f32) -> Vector {
    Vector {
        x: value.to_bits(),
        y: value.to_bits(),
        z: value.to_bits(),
    }
}

fn square(polygon_flags: u32) -> Model {
    Model {
        vectors: vec![point(1.0)],
        points: vec![point(-1.0), point(2.0), point(3.0), point(4.0)],
        nodes: vec![BspNode {
            flags: 0,
            vertex_pool_index: 0,
            surface_index: 0,
            vertex_count: 4,
        }],
        surfaces: vec![BspSurface {
            polygon_flags,
            base_index: 0,
            normal_index: 0,
            u_index: 0,
            v_index: 0,
        }],
        vertices: (0..4).map(|vertex_index| BspVertex { vertex_index }).collect(),
    }
}

#[test]
fn polygons_become_fans_of_triangles() {
    let mesh = square(0).mesh(None).unwrap().unwrap();
    assert_eq!(mesh.vertices.len(), 4);
    assert_eq!(mesh.indices, [0, 1, 2, 0, 2, 3]);
    let both = square(0x100).mesh(None).unwrap().unwrap();
    assert_eq!(both.vertices.len(), 8);
    assert_eq!(both.indices, [0, 1, 2, 0, 2, 3, 4, 6, 5, 4, 7, 6]);
    assert_eq!(both.vertices[4].normal.z, (-1.0_f32).to_bits());
}

#[test]
fn passable_and_distant_polygons_are_left_out() {
    assert!(square(0x0400_0000).mesh(None).unwrap().is_none());
    let mut passable = square(0);
    passable.nodes[0].flags = 1;
    assert!(passable.mesh(None).unwrap().is_none());
    let near = Box3 {
        min: point(-2.0),
        max: point(4.5),
    };
    assert!(square(0).mesh(Some(near)).unwrap().is_some());
    let touching = Box3 {
        min: point(-1.0),
        max: point(4.5),
    };
    assert!(square(0).mesh(Some(touching)).unwrap().is_none());
    let mut line = square(0);
    line.nodes[0].vertex_count = 2;
    assert!(line.mesh(None).unwrap().is_none());
}

#[test]
fn boxes_compare_numbers_by_their_bits() {
    for (low, value, high, inside) in [
        (-2.0_f32, -1.0, 0.0, true),
        (-0.0, 0.0, 1.0, false),
        (-1.0, -0.0, 1.0, true),
        (f32::NEG_INFINITY, 5.0, f32::INFINITY, true),
        (f32::NAN, 5.0, 6.0, false),
        (1.0, f32::NAN, 6.0, false),
        (-1.0, -2.0, 6.0, false),
    ] {
        let area = Box3 {
            min: point(low),
            max: point(high),
        };
        assert_eq!(area.contains_strict(point(value)), inside);
        assert_eq!(inside, value > low && value < high);
    }
}

#[test]
fn damaged_solids_are_refused() {
    let message = |model: Model| model.mesh(None).unwrap_err().message().to_owned();
    let mut broken = square(0);
    broken.nodes[0].surface_index = -1;
    assert_eq!(message(broken), "negative BSP surface index");
    let mut broken = square(0);
    broken.nodes[0].surface_index = 1;
    assert_eq!(message(broken), "BSP surface index out of bounds");
    let mut broken = square(0);
    broken.nodes[0].vertex_pool_index = -1;
    assert_eq!(message(broken), "negative BSP vertex pool index");
    let mut broken = square(0);
    broken.nodes[0].vertex_pool_index = 1;
    assert_eq!(
        message(broken),
        "BSP vertex pool range is invalid (start=1, count=4, pool=4)"
    );
    let mut broken = square(0);
    broken.vertices[2].vertex_index = -1;
    assert_eq!(message(broken), "BSP point index out of bounds");
    let mut broken = square(0);
    broken.surfaces[0].normal_index = -1;
    assert_eq!(message(broken), "negative BSP normal index");
    let mut broken = square(0);
    broken.surfaces[0].normal_index = 1;
    assert_eq!(message(broken), "BSP normal index out of bounds");
}

#[test]
fn only_solid_surfaces_of_a_mesh_collide() {
    let vertex = Vertex {
        position: point(0.0),
        normal: point(1.0),
    };
    let mut mesh = StaticMesh {
        vertices: vec![vertex; 6],
        surfaces: vec![
            StaticSurface {
                first_index: 0,
                triangle_max: 1,
            },
            StaticSurface {
                first_index: 3,
                triangle_max: 1,
            },
        ],
        indices: vec![0, 1, 2, 3, 4, 5],
        materials: vec![false, true],
    };
    assert_eq!(mesh.collision_mesh().unwrap().indices, [5, 4, 3]);
    mesh.surfaces[1].triangle_max = 2;
    assert_eq!(
        mesh.collision_mesh().unwrap_err().message(),
        "StaticMesh surface index range is invalid"
    );
}
