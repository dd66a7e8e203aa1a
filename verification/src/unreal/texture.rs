//! Textures, as far as they hold terrain heights.

use vstd::prelude::*;
use vstd::string::StringExecFns;

use crate::error::{AppError, ErrorModel, Result};
use crate::text;
use crate::text::push_decimal;
use crate::unreal::layout;
use crate::unreal::layout::{skip_strings, word_in};
use crate::unreal::package::{Archive, ArchiveModel};
use crate::unreal::properties;
use crate::unreal::properties::read_properties;
use crate::unreal::reader;
use crate::unreal::reader::{Parsed, Reader};

verus! {

/// The format of heights: one unsigned word per point.
pub const HEIGHT_FORMAT: u8 = 10;

#[derive(Clone, Debug)]
pub struct Texture {
    pub format: u8,
    pub u_size: i32,
    pub v_size: i32,
    pub mips: Vec<Vec<u8>>,
}

/// What a [`Texture`] holds.
#[verifier::ext_equal]
pub struct TextureModel {
    pub format: u8,
    pub u_size: i32,
    pub v_size: i32,
    pub mips: Seq<Seq<u8>>,
}

impl View for Texture {
    type V = TextureModel;

    open spec fn view(&self) -> TextureModel {
        TextureModel {
            format: self.format,
            u_size: self.u_size,
            v_size: self.v_size,
            mips: self.mips@.map_values(|mip: Vec<u8>| mip@),
        }
    }
}

/// Whether a material of a format was written with the fields of a version.
pub open spec fn versioned(file: i16, license: i16, from: int, to: int) -> bool {
    file >= 123 && from <= license < to
}

/// The size of the fixed part of an old material.
pub open spec fn old_material_size(license: i16) -> int {
    let marker = if 33 <= license < 36 {
        1int
    } else {
        0
    };
    let stage = if license < 36 {
        128int
    } else {
        127
    };
    marker + 6 + 12 + 8 * stage + 8 + 12
}

/// The size of the fixed part of a new material.
pub open spec fn new_material_size(file: i16) -> int {
    if file < 129 {
        36
    } else {
        92
    }
}

/// The position behind the stages of a new material: each a string and a list
/// of strings.
pub open spec fn behind_stages(bytes: Seq<u8>, pos: int, count: nat) -> Parsed<()>
    decreases count,
{
    if count == 0 {
        Ok(((), pos))
    } else {
        match reader::string_at(bytes, pos) {
            Err(error) => Err(error),
            Ok((_, pos)) => match reader::count_at(bytes, pos, "material stage strings"@) {
                Err(error) => Err(error),
                Ok((values, pos)) => match layout::behind_strings(bytes, pos, values as nat) {
                    Err(error) => Err(error),
                    Ok((_, next)) => behind_stages(bytes, next, (count - 1) as nat),
                },
            },
        }
    }
}

/// The position behind the fields of an old material.
pub open spec fn behind_old_material(bytes: Seq<u8>, pos: int, license: i16) -> Parsed<()> {
    match reader::behind(bytes, pos, old_material_size(license)) {
        Err(error) => Err(error),
        Ok((_, pos)) => layout::behind_strings(bytes, pos, 17),
    }
}

/// The position behind the fields of a new material.
pub open spec fn behind_new_material(bytes: Seq<u8>, pos: int, file: i16) -> Parsed<()> {
    match reader::behind(bytes, pos, new_material_size(file)) {
        Err(error) => Err(error),
        Ok((_, pos)) => match reader::count_at(bytes, pos, "material stages"@) {
            Err(error) => Err(error),
            Ok((stages, pos)) => match behind_stages(bytes, pos, stages as nat) {
                Err(error) => Err(error),
                Ok((_, pos)) => layout::behind_strings(bytes, pos, 1),
            },
        },
    }
}

/// The position behind the material data of a texture, which depend on the
/// version of the package.
pub open spec fn behind_material(bytes: Seq<u8>, pos: int, file: i16, license: i16) -> Parsed<()> {
    match (if versioned(file, license, 16, 37) {
        reader::behind(bytes, pos, 4)
    } else {
        Ok(((), pos))
    }) {
        Err(error) => Err(error),
        Ok((_, pos)) => match (if versioned(file, license, 30, 37) {
            behind_old_material(bytes, pos, license)
        } else if versioned(file, license, 37, 32_768) {
            behind_new_material(bytes, pos, file)
        } else {
            Ok(((), pos))
        }) {
            Err(error) => Err(error),
            Ok((_, pos)) => if versioned(file, license, 31, 32_768) {
                reader::behind(bytes, pos, 4)
            } else {
                Ok(((), pos))
            },
        },
    }
}

/// The size of a square of four by four points, of the formats that are read.
pub open spec fn square_size(format: u8) -> Option<int> {
    if format == 3 {
        Some(8)
    } else if format == 7 || format == 8 {
        Some(16)
    } else if format == HEIGHT_FORMAT {
        Some(32)
    } else if format == 5 {
        Some(64)
    } else {
        None
    }
}

/// A quarter, rounded toward zero.
pub open spec fn quarter(size: int) -> int {
    if size >= 0 {
        size / 4
    } else {
        -(-size / 4)
    }
}

/// The size of the image of a texture, where 32 bits hold it.
pub open spec fn image_size(u_size: int, v_size: int, square: int) -> Option<int> {
    let squares = quarter(u_size) * quarter(v_size);
    if i32::MIN <= squares <= i32::MAX && i32::MIN <= squares * square <= i32::MAX {
        Some(squares * square)
    } else {
        None
    }
}

/// Where an image starts: behind the first index that gives its size. Bytes
/// have to follow each index that is looked at.
pub open spec fn image_start(bytes: Seq<u8>, pos: int, size: int) -> Parsed<()>
    decreases bytes.len() - pos,
{
    match reader::index_at(bytes, pos) {
        Err(error) => Err(error),
        Ok((index, end)) => if !(pos < end < bytes.len()) {
            Err(ErrorModel::InvalidData("unexpected EOF while deserializing texture"@))
        } else if index == size {
            Ok(((), end))
        } else {
            image_start(bytes, end, size)
        },
    }
}

/// The image of a texture of a format that is read.
pub open spec fn image_at(
    bytes: Seq<u8>,
    pos: int,
    u_size: i32,
    v_size: i32,
    square: int,
) -> Parsed<Seq<u8>> {
    match image_size(u_size as int, v_size as int, square) {
        None => Err(ErrorModel::InvalidData("invalid texture size"@)),
        Some(size) => if size == -1 {
            Err(ErrorModel::InvalidData("negative mip size"@))
        } else {
            match image_start(bytes, pos, size) {
                Err(error) => Err(error),
                Ok((_, start)) => if size < 0 {
                    Err(ErrorModel::InvalidData("negative mip size"@))
                } else {
                    reader::bytes_at(bytes, start, size)
                },
            }
        },
    }
}

/// The texture in the bytes of an object.
pub open spec fn texture_at(archive: ArchiveModel, bytes: Seq<u8>, pos: int, flags: u32) -> Parsed<
    TextureModel,
> {
    match properties::properties_at(archive.names, bytes, pos, flags) {
        Err(error) => Err(error),
        Ok((props, pos)) => match behind_material(
            bytes,
            pos,
            archive.file_version,
            archive.license_version,
        ) {
            Err(error) => Err(error),
            Ok((_, pos)) => {
                let format = match properties::byte_of(props, "Format"@) {
                    Some(format) => format,
                    None => 0,
                };
                let u_size = match properties::integer_of(props, "USize"@) {
                    Some(size) => size,
                    None => 0,
                };
                let v_size = match properties::integer_of(props, "VSize"@) {
                    Some(size) => size,
                    None => 0,
                };
                match square_size(format) {
                    Some(square) => match image_at(bytes, pos, u_size, v_size, square) {
                        Err(error) => Err(error),
                        Ok((image, end)) => Ok(
                            (TextureModel { format, u_size, v_size, mips: seq![image] }, end),
                        ),
                    },
                    None => match layout::rows_at(bytes, pos, 1) {
                        Err(error) => Err(error),
                        Ok((_, end)) => Ok(
                            (TextureModel { format, u_size, v_size, mips: Seq::empty() }, end),
                        ),
                    },
                }
            },
        },
    }
}

impl TextureModel {
    /// The heights that the texture holds, row by row.
    pub open spec fn heights(self) -> std::result::Result<Seq<u16>, ErrorModel> {
        if self.format != HEIGHT_FORMAT {
            Err(
                ErrorModel::InvalidData(
                    "TerrainMap has unsupported format "@ + text::decimal(self.format as nat)
                        + " (expected G16)"@,
                ),
            )
        } else if self.mips.len() == 0 {
            Err(ErrorModel::InvalidData("TerrainMap has no mip"@))
        } else if self.u_size < 0 || self.v_size < 0 || 2 * (self.u_size * self.v_size)
            > usize::MAX {
            Err(ErrorModel::InvalidData("invalid TerrainMap dimensions"@))
        } else if self.mips[0].len() < 2 * (self.u_size * self.v_size) {
            Err(ErrorModel::InvalidData("TerrainMap mip is truncated"@))
        } else {
            Ok(
                Seq::new(
                    (self.u_size * self.v_size) as nat,
                    |i: int| reader::word(self.mips[0], 2 * i) as u16,
                ),
            )
        }
    }
}

fn skip_stages(reader: &mut Reader<'_>, count: usize) -> (result: Result<()>)
    ensures
        reader::reads(
            *old(reader),
            *final(reader),
            result,
            behind_stages(old(reader).bytes@, old(reader).pos as int, count as nat),
        ),
{
    let mut left: usize = count;
    while left > 0
        invariant
            reader.bytes == old(reader).bytes,
            behind_stages(old(reader).bytes@, old(reader).pos as int, count as nat)
                == behind_stages(reader.bytes@, reader.pos as int, left as nat),
        decreases left,
    {
        let _text = reader.string()?;
        let values: i32 = reader.count("material stage strings")?;
        skip_strings(reader, values as usize)?;
        left = left - 1;
    }
    Ok(())
}

/// Moves behind the material data of a texture.
pub fn skip_material_data(
    reader: &mut Reader<'_>,
    file_version: i16,
    license_version: i16,
) -> (result: Result<()>)
    ensures
        reader::reads(
            *old(reader),
            *final(reader),
            result,
            behind_material(
                old(reader).bytes@,
                old(reader).pos as int,
                file_version,
                license_version,
            ),
        ),
{
    if file_version < 123 {
        return Ok(());
    }
    if license_version >= 16 && license_version < 37 {
        reader.skip(4)?;
    }
    if license_version >= 30 && license_version < 37 {
        let marker: usize = if license_version >= 33 && license_version < 36 {
            1
        } else {
            0
        };
        let stage: usize = if license_version < 36 {
            128
        } else {
            127
        };
        reader.skip(marker + 6 + 12 + 8 * stage + 8 + 12)?;
        skip_strings(reader, 17)?;
    }
    if license_version >= 37 {
        let size: usize = if file_version < 129 {
            36
        } else {
            92
        };
        reader.skip(size)?;
        let stages: i32 = reader.count("material stages")?;
        skip_stages(reader, stages as usize)?;
        skip_strings(reader, 1)?;
    }
    if license_version >= 31 {
        reader.skip(4)?;
    }
    Ok(())
}

fn quarter_of(size: i32) -> (result: i64)
    ensures
        result == quarter(size as int),
        -536_870_912 <= result <= 536_870_911,
{
    if size >= 0 {
        size as i64 / 4
    } else {
        -((-(size as i64)) / 4)
    }
}

fn read_image(reader: &mut Reader<'_>, u_size: i32, v_size: i32, square: i64) -> (result: Result<
    Vec<u8>,
>)
    requires
        0 < square <= 64,
    ensures
        reader::reads_view(
            *old(reader),
            *final(reader),
            result,
            image_at(old(reader).bytes@, old(reader).pos as int, u_size, v_size, square as int),
        ),
{
    let u: i64 = quarter_of(u_size);
    let v: i64 = quarter_of(v_size);
    assert(-288_230_376_151_711_744 <= u * v <= 288_230_376_151_711_744) by (nonlinear_arith)
        requires
            -536_870_912 <= u <= 536_870_911,
            -536_870_912 <= v <= 536_870_911,
    ;
    let squares: i64 = u * v;
    if squares < i32::MIN as i64 || squares > i32::MAX as i64 {
        return Err(AppError::InvalidData("invalid texture size".to_owned()));
    }
    assert(-200_000_000_000 <= squares * square <= 200_000_000_000) by (nonlinear_arith)
        requires
            -2_147_483_648 <= squares <= 2_147_483_647,
            0 < square <= 64,
    ;
    let size: i64 = squares * square;
    if size < i32::MIN as i64 || size > i32::MAX as i64 {
        return Err(AppError::InvalidData("invalid texture size".to_owned()));
    }
    if size == -1 {
        return Err(AppError::InvalidData("negative mip size".to_owned()));
    }
    let mut found = false;
    let ghost start = reader.pos as int;
    let ghost bytes = reader.bytes@;
    while !found
        invariant
            reader.bytes == old(reader).bytes,
            bytes == reader.bytes@,
            start == old(reader).pos,
            i32::MIN <= size <= i32::MAX,
            size != -1,
            image_size(u_size as int, v_size as int, square as int) == Some(size as int),
            !found ==> image_start(bytes, start, size as int) == image_start(
                bytes,
                reader.pos as int,
                size as int,
            ),
            found ==> image_start(bytes, start, size as int) == Ok::<_, ErrorModel>(
                ((), reader.pos as int),
            ),
        decreases bytes.len() - reader.pos,
    {
        proof {
            reader::lemma_index_advances(bytes, reader.pos as int);
        }
        let index: i32 = reader.index()?;
        if reader.remaining() == 0 {
            return Err(
                AppError::InvalidData("unexpected EOF while deserializing texture".to_owned()),
            );
        }
        found = index as i64 == size;
    }
    if size < 0 {
        return Err(AppError::InvalidData("negative mip size".to_owned()));
    }
    reader.bytes(size as usize)
}

impl Texture {
    /// Reads a texture.
    pub fn read(archive: &Archive, reader: &mut Reader<'_>, flags: u32) -> (result: Result<Self>)
        ensures
            reader::reads_view(
                *old(reader),
                *final(reader),
                result,
                texture_at(archive@, old(reader).bytes@, old(reader).pos as int, flags),
            ),
    {
        let props = read_properties(reader, &archive.names, flags)?;
        let format: u8 = match props.byte("Format") {
            Some(format) => format,
            None => 0,
        };
        let u_size: i32 = match props.integer("USize") {
            Some(size) => size,
            None => 0,
        };
        let v_size: i32 = match props.integer("VSize") {
            Some(size) => size,
            None => 0,
        };
        skip_material_data(reader, archive.file_version, archive.license_version)?;
        let square: i64 = match format {
            3 => 8,
            7 | 8 => 16,
            10 => 32,
            5 => 64,
            _ => 0,
        };
        let mut mips: Vec<Vec<u8>> = Vec::new();
        if square > 0 {
            let image = read_image(reader, u_size, v_size, square)?;
            mips.push(image);
            let texture = Texture { format, u_size, v_size, mips };
            assert(texture@.mips =~= seq![image@]);
            Ok(texture)
        } else {
            let _discarded = layout::read_rows(reader, 1)?;
            let texture = Texture { format, u_size, v_size, mips };
            assert(texture@.mips =~= Seq::empty());
            Ok(texture)
        }
    }

    /// The heights that the texture holds.
    pub fn heights(&self) -> (result: Result<Vec<u16>>)
        ensures
            match (result, self@.heights()) {
                (Ok(heights), Ok(expected)) => heights@ == expected,
                (Err(error), Err(expected)) => error@ == expected,
                _ => false,
            },
    {
        if self.format != HEIGHT_FORMAT {
            let mut text = "TerrainMap has unsupported format ".to_owned();
            push_decimal(&mut text, self.format as u64);
            text.append(" (expected G16)");
            return Err(AppError::InvalidData(text));
        }
        if self.mips.len() == 0 {
            return Err(AppError::InvalidData("TerrainMap has no mip".to_owned()));
        }
        if self.u_size < 0 || self.v_size < 0 {
            return Err(AppError::InvalidData("invalid TerrainMap dimensions".to_owned()));
        }
        let u: u64 = self.u_size as u64;
        let v: u64 = self.v_size as u64;
        assert(0 <= u * v <= 4_611_686_018_427_387_904) by (nonlinear_arith)
            requires
                0 <= u <= 2_147_483_647,
                0 <= v <= 2_147_483_647,
        ;
        assert(u * v == self.u_size * self.v_size);
        let points: u64 = u * v;
        if 2 * points > usize::MAX as u64 {
            return Err(AppError::InvalidData("invalid TerrainMap dimensions".to_owned()));
        }
        let mip = self.mips[0].as_slice();
        assert(mip@ == self@.mips[0]);
        if (mip.len() as u64) < 2 * points {
            return Err(AppError::InvalidData("TerrainMap mip is truncated".to_owned()));
        }
        let mut heights: Vec<u16> = Vec::new();
        let mut i: usize = 0;
        while i < points as usize
            invariant
                i <= points,
                2 * points <= mip@.len(),
                2 * points <= usize::MAX,
                heights@.len() == i,
                forall|j: int| 0 <= j < i ==> heights@[j] == reader::word(mip@, 2 * j),
            decreases points - i,
        {
            heights.push(word_in(mip, 2 * i));
            i += 1;
        }
        proof {
            assert(heights@ =~= self@.heights()->Ok_0);
        }
        Ok(heights)
    }
}

} // verus!
