//! Packages: their encryption and their tables.

use vstd::prelude::*;
use vstd::string::StringExecFns;

use crate::error::{AppError, ErrorModel, Result};
use crate::path;
use crate::text;
use crate::text::{push_decimal, push_signed, string_of};
use crate::unreal::reader;
use crate::unreal::reader::{check_count, Parsed, Reader};

verus! {

pub const PACKAGE_MAGIC: i32 = -1_641_380_927;

/// The key of packages whose encryption does not depend on their name.
pub const FIXED_KEY: u8 = 172;

/// The text "Lineage2Ver" that opens an encrypted package, in words.
pub open spec fn banner() -> Seq<u8> {
    seq![76, 0, 105, 0, 110, 0, 101, 0, 97, 0, 103, 0, 101, 0, 50, 0, 86, 0, 101, 0, 114, 0]
}

pub open spec fn is_digit(byte: u8) -> bool {
    48 <= byte <= 57
}

/// The version that three bytes write: three digits, or two behind a plus sign.
pub open spec fn version(first: u8, second: u8, third: u8) -> Option<int> {
    if is_digit(second) && is_digit(third) && (is_digit(first) || first == 43) {
        let hundreds = if first == 43 {
            0
        } else {
            first - 48
        };
        Some(100 * hundreds + 10 * (second - 48) + (third - 48))
    } else {
        None
    }
}

pub open spec fn lower_byte(byte: u8) -> u8 {
    if 65 <= byte <= 90 {
        (byte + 32) as u8
    } else {
        byte
    }
}

/// The sum of the bytes of a name in lower case.
pub open spec fn name_sum(name: Seq<u8>) -> int
    decreases name.len(),
{
    if name.len() == 0 {
        0
    } else {
        name_sum(name.drop_last()) + lower_byte(name.last())
    }
}

/// What an encrypted package holds. In version 121 the key is the sum of the
/// bytes of the file's name in lower case.
pub open spec fn decrypted(path: Seq<char>, bytes: Seq<u8>) -> std::result::Result<
    Seq<u8>,
    ErrorModel,
> {
    if bytes.len() < 28 || bytes.take(22) != banner() {
        Err(ErrorModel::InvalidData("can't detect Lineage 2 encryption version: "@ + path))
    } else {
        let payload = bytes.skip(28);
        match version(bytes[22], bytes[24], bytes[26]) {
            None => Err(ErrorModel::InvalidData("invalid encryption version: "@ + path)),
            Some(number) => if number == 111 {
                Ok(payload.map_values(|byte: u8| byte ^ FIXED_KEY))
            } else if number == 121 {
                match path::file_name_of(path) {
                    None => Err(ErrorModel::InvalidData("non-Unicode package filename: "@ + path)),
                    Some(name) => {
                        let key = (name_sum(vstd::utf8::encode_utf8(name)) % 256) as u8;
                        Ok(payload.map_values(|byte: u8| byte ^ key))
                    },
                }
            } else {
                Err(
                    ErrorModel::Unsupported(
                        "unsupported Lineage 2 encryption version: "@ + text::decimal(
                            number as nat,
                        ),
                    ),
                )
            },
        }
    }
}

fn has_banner(bytes: &[u8]) -> (found: bool)
    requires
        bytes@.len() >= 22,
    ensures
        found == (bytes@.take(22) == banner()),
{
    let expected: [u8; 22] = [
        76,
        0,
        105,
        0,
        110,
        0,
        101,
        0,
        97,
        0,
        103,
        0,
        101,
        0,
        50,
        0,
        86,
        0,
        101,
        0,
        114,
        0,
    ];
    assert(expected@ =~= banner());
    let mut i: usize = 0;
    while i < 22
        invariant
            i <= 22,
            bytes@.len() >= 22,
            expected@ == banner(),
            forall|j: int| 0 <= j < i ==> bytes@[j] == banner()[j],
        decreases 22 - i,
    {
        if bytes[i] != expected[i] {
            assert(bytes@.take(22)[i as int] != banner()[i as int]);
            return false;
        }
        i += 1;
    }
    assert(bytes@.take(22) =~= banner());
    true
}

fn read_version(first: u8, second: u8, third: u8) -> (number: Option<u16>)
    ensures
        match (number, version(first, second, third)) {
            (Some(number), Some(expected)) => number == expected,
            (None, None) => true,
            _ => false,
        },
{
    if second < 48 || second > 57 || third < 48 || third > 57 {
        return None;
    }
    let hundreds: u16 = if first == 43 {
        0
    } else if first < 48 || first > 57 {
        return None;
    } else {
        first as u16 - 48
    };
    Some(100 * hundreds + 10 * (second as u16 - 48) + (third as u16 - 48))
}

fn name_key(name: &[u8]) -> (key: u8)
    ensures
        key == name_sum(name@) % 256,
{
    let mut key: u8 = 0;
    let mut i: usize = 0;
    while i < name.len()
        invariant
            i <= name@.len(),
            key == name_sum(name@.take(i as int)) % 256,
        decreases name.len() - i,
    {
        let byte: u8 = if name[i] >= 65 && name[i] <= 90 {
            name[i] + 32
        } else {
            name[i]
        };
        proof {
            assert(name@.take(i + 1).drop_last() =~= name@.take(i as int));
            assert(name@.take(i + 1).last() == name@[i as int]);
            let before = name_sum(name@.take(i as int));
            assert((before + byte) % 256 == ((before % 256) + byte) % 256);
        }
        key = ((key as u16 + byte as u16) % 256) as u8;
        i += 1;
    }
    assert(name@.take(i as int) =~= name@);
    key
}

fn combine(bytes: &[u8], key: u8) -> (plain: Vec<u8>)
    requires
        bytes@.len() >= 28,
    ensures
        plain@ == bytes@.skip(28).map_values(|byte: u8| byte ^ key),
{
    let mut plain: Vec<u8> = Vec::new();
    let mut i: usize = 28;
    while i < bytes.len()
        invariant
            28 <= i <= bytes@.len(),
            plain@ == bytes@.subrange(28, i as int).map_values(|byte: u8| byte ^ key),
        decreases bytes.len() - i,
    {
        plain.push(bytes[i] ^ key);
        i += 1;
        assert(plain@ =~= bytes@.subrange(28, i as int).map_values(|byte: u8| byte ^ key));
    }
    assert(bytes@.subrange(28, bytes@.len() as int) =~= bytes@.skip(28));
    plain
}

fn message(opening: &str, detail: &str) -> (text: String)
    ensures
        text@ == opening@ + detail@,
{
    let mut text = opening.to_owned();
    text.append(detail);
    text
}

/// Decrypts a package file.
pub fn decrypt(path: &str, bytes: &[u8]) -> (result: Result<Vec<u8>>)
    ensures
        match (result, decrypted(path@, bytes@)) {
            (Ok(plain), Ok(expected)) => plain@ == expected,
            (Err(error), Err(expected)) => error@ == expected,
            _ => false,
        },
{
    if bytes.len() < 28 || !has_banner(bytes) {
        return Err(
            AppError::InvalidData(message("can't detect Lineage 2 encryption version: ", path)),
        );
    }
    match read_version(bytes[22], bytes[24], bytes[26]) {
        None => Err(AppError::InvalidData(message("invalid encryption version: ", path))),
        Some(number) => {
            if number == 111 {
                Ok(combine(bytes, FIXED_KEY))
            } else if number == 121 {
                match path::file_name(path) {
                    None => Err(
                        AppError::InvalidData(message("non-Unicode package filename: ", path)),
                    ),
                    Some(name) => {
                        let name = string_of(name.as_slice());
                        let key: u8 = name_key(name.as_str().as_bytes());
                        Ok(combine(bytes, key))
                    },
                }
            } else {
                let mut text = "unsupported Lineage 2 encryption version: ".to_owned();
                push_decimal(&mut text, number as u64);
                Err(AppError::Unsupported(text))
            }
        },
    }
}

/// An object of another package.
#[derive(Clone, Debug)]
pub struct Import {
    pub class_name: String,
    pub package_index: i32,
    pub object_name: String,
}

/// What an [`Import`] says.
#[verifier::ext_equal]
pub struct ImportModel {
    pub class_name: Seq<char>,
    pub package_index: i32,
    pub object_name: Seq<char>,
}

impl View for Import {
    type V = ImportModel;

    open spec fn view(&self) -> ImportModel {
        ImportModel {
            class_name: self.class_name@,
            package_index: self.package_index,
            object_name: self.object_name@,
        }
    }
}

/// An object of the package.
#[derive(Clone, Debug)]
pub struct Export {
    pub class_name: String,
    pub object_name: String,
    pub flags: u32,
    pub serial_size: i32,
    pub serial_offset: i32,
}

/// What an [`Export`] says.
#[verifier::ext_equal]
pub struct ExportModel {
    pub class_name: Seq<char>,
    pub object_name: Seq<char>,
    pub flags: u32,
    pub serial_size: i32,
    pub serial_offset: i32,
}

impl View for Export {
    type V = ExportModel;

    open spec fn view(&self) -> ExportModel {
        ExportModel {
            class_name: self.class_name@,
            object_name: self.object_name@,
            flags: self.flags,
            serial_size: self.serial_size,
            serial_offset: self.serial_offset,
        }
    }
}

pub open spec fn imports_of(list: Seq<Import>) -> Seq<ImportModel> {
    list.map_values(|entry: Import| entry@)
}

pub open spec fn exports_of(list: Seq<Export>) -> Seq<ExportModel> {
    list.map_values(|entry: Export| entry@)
}

/// A package: its bytes and its tables.
pub struct Archive {
    pub name: String,
    pub data: Vec<u8>,
    pub file_version: i16,
    pub license_version: i16,
    pub names: Vec<String>,
    pub imports: Vec<Import>,
    pub exports: Vec<Export>,
}

/// What an [`Archive`] holds.
#[verifier::ext_equal]
pub struct ArchiveModel {
    pub name: Seq<char>,
    pub data: Seq<u8>,
    pub file_version: i16,
    pub license_version: i16,
    pub names: Seq<Seq<char>>,
    pub imports: Seq<ImportModel>,
    pub exports: Seq<ExportModel>,
}

impl View for Archive {
    type V = ArchiveModel;

    open spec fn view(&self) -> ArchiveModel {
        ArchiveModel {
            name: self.name@,
            data: self.data@,
            file_version: self.file_version,
            license_version: self.license_version,
            names: text::texts(self.names@),
            imports: imports_of(self.imports@),
            exports: exports_of(self.exports@),
        }
    }
}

/// A position in a file, where it lies in it.
pub open spec fn offset_in(offset: int, limit: int) -> std::result::Result<int, ErrorModel> {
    if offset < 0 {
        Err(ErrorModel::InvalidData("negative package offset"@))
    } else if offset > limit {
        Err(ErrorModel::InvalidData("package offset beyond EOF"@))
    } else {
        Ok(offset)
    }
}

/// A name of the name table.
pub open spec fn name_of(names: Seq<Seq<char>>, index: int) -> std::result::Result<
    Seq<char>,
    ErrorModel,
> {
    if index < 0 {
        Err(ErrorModel::InvalidData("negative name index"@))
    } else if index >= names.len() {
        Err(
            ErrorModel::InvalidData("name index out of bounds: "@ + text::signed_decimal(index)),
        )
    } else {
        Ok(names[index])
    }
}

/// A name, given by its compact index.
pub open spec fn name_read(names: Seq<Seq<char>>, bytes: Seq<u8>, pos: int) -> Parsed<Seq<char>> {
    match reader::index_at(bytes, pos) {
        Err(error) => Err(error),
        Ok((index, end)) => match name_of(names, index as int) {
            Err(error) => Err(error),
            Ok(name) => Ok((name, end)),
        },
    }
}

/// The name of a class: of an import for a negative index, of an export seen
/// before for a positive one.
pub open spec fn class_of(
    imports: Seq<ImportModel>,
    exports: Seq<ExportModel>,
    index: int,
) -> std::result::Result<Seq<char>, ErrorModel> {
    if index < 0 {
        if -index - 1 < imports.len() {
            Ok(imports[-index - 1].object_name)
        } else {
            Err(ErrorModel::InvalidData("class import index out of bounds"@))
        }
    } else if index > 0 {
        if index - 1 < exports.len() {
            Ok(exports[index - 1].object_name)
        } else {
            Err(ErrorModel::InvalidData("class export index out of bounds"@))
        }
    } else {
        Ok("None"@)
    }
}

/// The name table. Four bytes of flags follow each name.
pub open spec fn names_from(data: Seq<u8>, pos: int, count: nat, done: Seq<Seq<char>>) -> Parsed<
    Seq<Seq<char>>,
>
    decreases count,
{
    if count == 0 {
        Ok((done, pos))
    } else {
        match reader::string_at(data, pos) {
            Err(error) => Err(error),
            Ok((name, flags)) => match reader::behind(data, flags, 4) {
                Err(error) => Err(error),
                Ok((_, next)) => names_from(data, next, (count - 1) as nat, done.push(name)),
            },
        }
    }
}

/// One import: the class's package, the class, the package it lies in, its name.
pub open spec fn import_at(names: Seq<Seq<char>>, data: Seq<u8>, pos: int) -> Parsed<ImportModel> {
    match name_read(names, data, pos) {
        Err(error) => Err(error),
        Ok((_, pos)) => match name_read(names, data, pos) {
            Err(error) => Err(error),
            Ok((class_name, pos)) => match reader::i32_at(data, pos) {
                Err(error) => Err(error),
                Ok((package_index, pos)) => match name_read(names, data, pos) {
                    Err(error) => Err(error),
                    Ok((object_name, pos)) => Ok(
                        (ImportModel { class_name, package_index, object_name }, pos),
                    ),
                },
            },
        },
    }
}

pub open spec fn imports_from(
    names: Seq<Seq<char>>,
    data: Seq<u8>,
    pos: int,
    count: nat,
    done: Seq<ImportModel>,
) -> Parsed<Seq<ImportModel>>
    decreases count,
{
    if count == 0 {
        Ok((done, pos))
    } else {
        match import_at(names, data, pos) {
            Err(error) => Err(error),
            Ok((entry, next)) => imports_from(
                names,
                data,
                next,
                (count - 1) as nat,
                done.push(entry),
            ),
        }
    }
}

/// Where an object lies: its size, and its offset unless it is empty.
pub open spec fn serial_at(data: Seq<u8>, pos: int) -> Parsed<(i32, i32)> {
    match reader::index_at(data, pos) {
        Err(error) => Err(error),
        Ok((size, pos)) => if size > 0 {
            match reader::index_at(data, pos) {
                Err(error) => Err(error),
                Ok((offset, pos)) => Ok(((size, offset), pos)),
            }
        } else {
            Ok(((size, 0), pos))
        },
    }
}

/// One export: its class, its superclass, the package it lies in, its name, its
/// flags and where it lies.
pub open spec fn export_at(
    names: Seq<Seq<char>>,
    imports: Seq<ImportModel>,
    exports: Seq<ExportModel>,
    data: Seq<u8>,
    pos: int,
) -> Parsed<ExportModel> {
    match reader::index_at(data, pos) {
        Err(error) => Err(error),
        Ok((class_index, pos)) => match reader::index_at(data, pos) {
            Err(error) => Err(error),
            Ok((_, pos)) => match reader::i32_at(data, pos) {
                Err(error) => Err(error),
                Ok((_, pos)) => match name_read(names, data, pos) {
                    Err(error) => Err(error),
                    Ok((object_name, pos)) => match reader::u32_at(data, pos) {
                        Err(error) => Err(error),
                        Ok((flags, pos)) => match serial_at(data, pos) {
                            Err(error) => Err(error),
                            Ok((serial, pos)) => match class_of(
                                imports,
                                exports,
                                class_index as int,
                            ) {
                                Err(error) => Err(error),
                                Ok(class_name) => Ok(
                                    (
                                        ExportModel {
                                            class_name,
                                            object_name,
                                            flags,
                                            serial_size: serial.0,
                                            serial_offset: serial.1,
                                        },
                                        pos,
                                    ),
                                ),
                            },
                        },
                    },
                },
            },
        },
    }
}

pub open spec fn exports_from(
    names: Seq<Seq<char>>,
    imports: Seq<ImportModel>,
    data: Seq<u8>,
    pos: int,
    count: nat,
    done: Seq<ExportModel>,
) -> Parsed<Seq<ExportModel>>
    decreases count,
{
    if count == 0 {
        Ok((done, pos))
    } else {
        match export_at(names, imports, done, data, pos) {
            Err(error) => Err(error),
            Ok((entry, next)) => exports_from(
                names,
                imports,
                data,
                next,
                (count - 1) as nat,
                done.push(entry),
            ),
        }
    }
}

/// The number at a fixed place of the package header.
pub open spec fn header_number(data: Seq<u8>, at: int) -> int {
    reader::signed_long(reader::long(data, at))
}

/// What the header does not allow, if anything.
pub open spec fn header_fault(name: Seq<char>, data: Seq<u8>) -> Option<ErrorModel> {
    if data.len() < 4 {
        Some(reader::out_of_bytes())
    } else if header_number(data, 0) != PACKAGE_MAGIC {
        Some(ErrorModel::InvalidData("invalid Lineage II package magic: "@ + name))
    } else if data.len() < 56 {
        Some(reader::out_of_bytes())
    } else if header_number(data, 52) < 0 {
        Some(ErrorModel::InvalidData("negative package generation count"@))
    } else if 56 + 8 * header_number(data, 52) > data.len() {
        Some(reader::out_of_bytes())
    } else if !reader::countable(header_number(data, 12)) {
        Some(reader::bad_count("name"@, header_number(data, 12)))
    } else if !reader::countable(header_number(data, 28)) {
        Some(reader::bad_count("import"@, header_number(data, 28)))
    } else if !reader::countable(header_number(data, 20)) {
        Some(reader::bad_count("export"@, header_number(data, 20)))
    } else {
        None
    }
}

/// The name table of a package.
pub open spec fn name_table(data: Seq<u8>) -> std::result::Result<Seq<Seq<char>>, ErrorModel> {
    match offset_in(header_number(data, 16), data.len() as int) {
        Err(error) => Err(error),
        Ok(start) => match names_from(
            data,
            start,
            header_number(data, 12) as nat,
            Seq::empty(),
        ) {
            Err(error) => Err(error),
            Ok((names, _)) => Ok(names),
        },
    }
}

pub open spec fn import_table(names: Seq<Seq<char>>, data: Seq<u8>) -> std::result::Result<
    Seq<ImportModel>,
    ErrorModel,
> {
    match offset_in(header_number(data, 32), data.len() as int) {
        Err(error) => Err(error),
        Ok(start) => match imports_from(
            names,
            data,
            start,
            header_number(data, 28) as nat,
            Seq::empty(),
        ) {
            Err(error) => Err(error),
            Ok((imports, _)) => Ok(imports),
        },
    }
}

pub open spec fn export_table(
    names: Seq<Seq<char>>,
    imports: Seq<ImportModel>,
    data: Seq<u8>,
) -> std::result::Result<Seq<ExportModel>, ErrorModel> {
    match offset_in(header_number(data, 24), data.len() as int) {
        Err(error) => Err(error),
        Ok(start) => match exports_from(
            names,
            imports,
            data,
            start,
            header_number(data, 20) as nat,
            Seq::empty(),
        ) {
            Err(error) => Err(error),
            Ok((exports, _)) => Ok(exports),
        },
    }
}

/// The package that decrypted bytes hold.
pub open spec fn archive_in(name: Seq<char>, data: Seq<u8>) -> std::result::Result<
    ArchiveModel,
    ErrorModel,
> {
    match header_fault(name, data) {
        Some(error) => Err(error),
        None => match name_table(data) {
            Err(error) => Err(error),
            Ok(names) => match import_table(names, data) {
                Err(error) => Err(error),
                Ok(imports) => match export_table(names, imports, data) {
                    Err(error) => Err(error),
                    Ok(exports) => Ok(
                        ArchiveModel {
                            name,
                            data,
                            file_version: reader::signed_word(reader::word(data, 4)) as i16,
                            license_version: reader::signed_word(reader::word(data, 6)) as i16,
                            names,
                            imports,
                            exports,
                        },
                    ),
                },
            },
        },
    }
}

/// A position given in a package, checked against its length.
pub fn checked_offset(offset: i32, limit: usize) -> (result: Result<usize>)
    ensures
        match (result, offset_in(offset as int, limit as int)) {
            (Ok(offset), Ok(expected)) => offset == expected,
            (Err(error), Err(expected)) => error@ == expected,
            _ => false,
        },
{
    if offset < 0 {
        Err(AppError::InvalidData("negative package offset".to_owned()))
    } else if offset as usize > limit {
        Err(AppError::InvalidData("package offset beyond EOF".to_owned()))
    } else {
        Ok(offset as usize)
    }
}

/// Looks a name up.
pub fn name_at(names: &Vec<String>, index: i32) -> (result: Result<String>)
    ensures
        match (result, name_of(text::texts(names@), index as int)) {
            (Ok(name), Ok(expected)) => name@ == expected,
            (Err(error), Err(expected)) => error@ == expected,
            _ => false,
        },
{
    if index < 0 {
        Err(AppError::InvalidData("negative name index".to_owned()))
    } else if index as usize >= names.len() {
        let mut text = "name index out of bounds: ".to_owned();
        push_signed(&mut text, index as i64);
        Err(AppError::InvalidData(text))
    } else {
        Ok(names[index as usize].clone())
    }
}

/// Reads the index of a name and looks it up.
pub(crate) fn read_name(reader: &mut Reader<'_>, names: &Vec<String>) -> (result: Result<String>)
    ensures
        reader::reads_view(
            *old(reader),
            *final(reader),
            result,
            name_read(text::texts(names@), old(reader).bytes@, old(reader).pos as int),
        ),
{
    let index: i32 = reader.index()?;
    name_at(names, index)
}

fn class_name_for(imports: &Vec<Import>, exports: &Vec<Export>, index: i32) -> (result: Result<
    String,
>)
    ensures
        match (result, class_of(imports_of(imports@), exports_of(exports@), index as int)) {
            (Ok(name), Ok(expected)) => name@ == expected,
            (Err(error), Err(expected)) => error@ == expected,
            _ => false,
        },
{
    if index < 0 {
        let place: usize = (-(index as i64) - 1) as usize;
        if place < imports.len() {
            Ok(imports[place].object_name.clone())
        } else {
            Err(AppError::InvalidData("class import index out of bounds".to_owned()))
        }
    } else if index > 0 {
        let place: usize = (index - 1) as usize;
        if place < exports.len() {
            Ok(exports[place].object_name.clone())
        } else {
            Err(AppError::InvalidData("class export index out of bounds".to_owned()))
        }
    } else {
        Ok("None".to_owned())
    }
}

fn read_names(data: &[u8], offset: i32, count: i32) -> (result: Result<Vec<String>>)
    requires
        0 <= count,
    ensures
        match (
            result,
            match offset_in(offset as int, data@.len() as int) {
                Err(error) => Err(error),
                Ok(start) => match names_from(data@, start, count as nat, Seq::empty()) {
                    Err(error) => Err(error),
                    Ok((names, _)) => Ok::<_, ErrorModel>(names),
                },
            },
        ) {
            (Ok(names), Ok(expected)) => text::texts(names@) == expected,
            (Err(error), Err(expected)) => error@ == expected,
            _ => false,
        },
{
    let mut reader = Reader::new(data, checked_offset(offset, data.len())?);
    let mut names: Vec<String> = Vec::new();
    let mut left: i32 = count;
    let ghost expected = names_from(data@, offset as int, count as nat, Seq::empty());
    assert(text::texts(names@) =~= Seq::empty());
    while left > 0
        invariant
            0 <= left,
            reader.bytes == data,
            offset_in(offset as int, data@.len() as int) is Ok,
            expected == names_from(data@, offset as int, count as nat, Seq::empty()),
            expected == names_from(
                data@,
                reader.pos as int,
                left as nat,
                text::texts(names@),
            ),
        decreases left,
    {
        let name = reader.string()?;
        let ghost before = text::texts(names@);
        reader.skip(4)?;
        names.push(name);
        assert(text::texts(names@) =~= before.push(name@));
        left = left - 1;
    }
    Ok(names)
}

fn read_import(reader: &mut Reader<'_>, names: &Vec<String>) -> (result: Result<Import>)
    ensures
        reader::reads_view(
            *old(reader),
            *final(reader),
            result,
            import_at(text::texts(names@), old(reader).bytes@, old(reader).pos as int),
        ),
{
    let _class_package = read_name(reader, names)?;
    let class_name = read_name(reader, names)?;
    let package_index: i32 = reader.i32()?;
    let object_name = read_name(reader, names)?;
    Ok(Import { class_name, package_index, object_name })
}

fn read_imports(data: &[u8], names: &Vec<String>, offset: i32, count: i32) -> (result: Result<
    Vec<Import>,
>)
    requires
        0 <= count,
    ensures
        match (
            result,
            match offset_in(offset as int, data@.len() as int) {
                Err(error) => Err(error),
                Ok(start) => match imports_from(
                    text::texts(names@),
                    data@,
                    start,
                    count as nat,
                    Seq::empty(),
                ) {
                    Err(error) => Err(error),
                    Ok((imports, _)) => Ok::<_, ErrorModel>(imports),
                },
            },
        ) {
            (Ok(imports), Ok(expected)) => imports_of(imports@) == expected,
            (Err(error), Err(expected)) => error@ == expected,
            _ => false,
        },
{
    let mut reader = Reader::new(data, checked_offset(offset, data.len())?);
    let mut imports: Vec<Import> = Vec::new();
    let mut left: i32 = count;
    let ghost table = text::texts(names@);
    let ghost expected = imports_from(table, data@, offset as int, count as nat, Seq::empty());
    assert(imports_of(imports@) =~= Seq::empty());
    while left > 0
        invariant
            0 <= left,
            reader.bytes == data,
            table == text::texts(names@),
            offset_in(offset as int, data@.len() as int) is Ok,
            expected == imports_from(table, data@, offset as int, count as nat, Seq::empty()),
            expected == imports_from(
                table,
                data@,
                reader.pos as int,
                left as nat,
                imports_of(imports@),
            ),
        decreases left,
    {
        let entry = read_import(&mut reader, names)?;
        let ghost before = imports_of(imports@);
        imports.push(entry);
        assert(imports_of(imports@) =~= before.push(entry@));
        left = left - 1;
    }
    Ok(imports)
}

fn read_export(
    reader: &mut Reader<'_>,
    names: &Vec<String>,
    imports: &Vec<Import>,
    exports: &Vec<Export>,
) -> (result: Result<Export>)
    ensures
        reader::reads_view(
            *old(reader),
            *final(reader),
            result,
            export_at(
                text::texts(names@),
                imports_of(imports@),
                exports_of(exports@),
                old(reader).bytes@,
                old(reader).pos as int,
            ),
        ),
{
    let class_index: i32 = reader.index()?;
    let _super_index: i32 = reader.index()?;
    let _package_index: i32 = reader.i32()?;
    let object_name = read_name(reader, names)?;
    let flags: u32 = reader.u32()?;
    let serial_size: i32 = reader.index()?;
    let serial_offset: i32 = if serial_size > 0 {
        reader.index()?
    } else {
        0
    };
    let class_name = class_name_for(imports, exports, class_index)?;
    Ok(Export { class_name, object_name, flags, serial_size, serial_offset })
}

fn read_exports(
    data: &[u8],
    names: &Vec<String>,
    imports: &Vec<Import>,
    offset: i32,
    count: i32,
) -> (result: Result<Vec<Export>>)
    requires
        0 <= count,
    ensures
        match (
            result,
            match offset_in(offset as int, data@.len() as int) {
                Err(error) => Err(error),
                Ok(start) => match exports_from(
                    text::texts(names@),
                    imports_of(imports@),
                    data@,
                    start,
                    count as nat,
                    Seq::empty(),
                ) {
                    Err(error) => Err(error),
                    Ok((exports, _)) => Ok::<_, ErrorModel>(exports),
                },
            },
        ) {
            (Ok(exports), Ok(expected)) => exports_of(exports@) == expected,
            (Err(error), Err(expected)) => error@ == expected,
            _ => false,
        },
{
    let mut reader = Reader::new(data, checked_offset(offset, data.len())?);
    let mut exports: Vec<Export> = Vec::new();
    let mut left: i32 = count;
    let ghost table = text::texts(names@);
    let ghost known = imports_of(imports@);
    let ghost expected = exports_from(
        table,
        known,
        data@,
        offset as int,
        count as nat,
        Seq::empty(),
    );
    assert(exports_of(exports@) =~= Seq::empty());
    while left > 0
        invariant
            0 <= left,
            reader.bytes == data,
            table == text::texts(names@),
            known == imports_of(imports@),
            offset_in(offset as int, data@.len() as int) is Ok,
            expected == exports_from(
                table,
                known,
                data@,
                offset as int,
                count as nat,
                Seq::empty(),
            ),
            expected == exports_from(
                table,
                known,
                data@,
                reader.pos as int,
                left as nat,
                exports_of(exports@),
            ),
        decreases left,
    {
        let entry = read_export(&mut reader, names, imports, &exports)?;
        let ghost before = exports_of(exports@);
        exports.push(entry);
        assert(exports_of(exports@) =~= before.push(entry@));
        left = left - 1;
    }
    Ok(exports)
}

impl Archive {
    /// Reads the tables of a decrypted package.
    pub fn parse(name: &str, data: Vec<u8>) -> (result: Result<Self>)
        ensures
            match (result, archive_in(name@, data@)) {
                (Ok(archive), Ok(expected)) => archive@ == expected,
                (Err(error), Err(expected)) => error@ == expected,
                _ => false,
            },
    {
        let bytes = data.as_slice();
        let mut reader = Reader::new(bytes, 0);
        if reader.i32()? != PACKAGE_MAGIC {
            return Err(
                AppError::InvalidData(message("invalid Lineage II package magic: ", name)),
            );
        }
        let file_version: i16 = reader.i16()?;
        let license_version: i16 = reader.i16()?;
        let _flags: u32 = reader.u32()?;
        let name_count: i32 = reader.i32()?;
        let name_offset: i32 = reader.i32()?;
        let export_count: i32 = reader.i32()?;
        let export_offset: i32 = reader.i32()?;
        let import_count: i32 = reader.i32()?;
        let import_offset: i32 = reader.i32()?;
        reader.skip(16)?;
        let generations: i32 = reader.i32()?;
        if generations < 0 {
            return Err(AppError::InvalidData("negative package generation count".to_owned()));
        }
        if (reader.remaining() as u64) < 8 * generations as u64 {
            return Err(reader::out_of_bytes_error());
        }
        check_count("name", name_count)?;
        check_count("import", import_count)?;
        check_count("export", export_count)?;
        let names = read_names(bytes, name_offset, name_count)?;
        let imports = read_imports(bytes, &names, import_offset, import_count)?;
        let exports = read_exports(bytes, &names, &imports, export_offset, export_count)?;
        Ok(
            Archive {
                name: name.to_owned(),
                data,
                file_version,
                license_version,
                names,
                imports,
                exports,
            },
        )
    }
}

} // verus!
