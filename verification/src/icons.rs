//! The glyphs of the sixteen masks.

use vstd::prelude::*;

verus! {

/// The side of a glyph, in pixels.
pub const ICON_SIDE: usize = 256;

/// The side of the picture that holds all glyphs, four by four.
pub const ATLAS_SIDE: usize = 1_024;

/// A decoded image. Samples have eight bits. The colour type is the number that
/// the file format gives it.
#[derive(Debug)]
pub struct PngImage {
    pub width: u32,
    pub height: u32,
    pub color_type: u8,
    pub data: Vec<u8>,
}

/// What the `png` crate decodes of a file, with palettes and small samples
/// expanded and large ones cut to eight bits: the width, the height, the colour
/// type and the samples of its first frame.
pub uninterp spec fn png_image(bytes: Seq<u8>) -> Option<(u32, u32, u8, Seq<u8>)>;

/// Decodes a file with `png::Decoder`, `png::Transformations::normalize_to_color8`
/// and `png::Reader::next_frame`. What comes out depends on the bytes alone,
/// but a machine with a small address space may refuse an image that another
/// one decodes.
#[verifier::external_body]
fn decode_png(bytes: &[u8]) -> (image: Option<PngImage>)
    ensures
        match image {
            Some(image) => png_image(bytes@) == Some(
                (image.width, image.height, image.color_type, image.data@),
            ),
            None => png_image(bytes@) is None || usize::MAX < u64::MAX,
        },
{
    let mut decoder = png::Decoder::new(std::io::Cursor::new(bytes));
    decoder.set_transformations(png::Transformations::normalize_to_color8());
    let mut reader = decoder.read_info().ok()?;
    let mut data = vec![0; reader.output_buffer_size()?];
    let info = reader.next_frame(&mut data).ok()?;
    data.truncate(info.buffer_size());
    Some(
        PngImage {
            width: info.width,
            height: info.height,
            color_type: info.color_type as u8,
            data,
        },
    )
}

/// A picture of red, green, blue and opacity.
#[derive(Debug)]
pub struct Icon {
    pub width: u32,
    pub height: u32,
    pub rgba: Vec<u8>,
}

/// The samples of a pixel in a colour type: one grey one, with opacity or
/// without, or three colours, with opacity or without. A palette is none.
pub open spec fn samples(color_type: u8) -> Option<nat> {
    if color_type == 0 {
        Some(1)
    } else if color_type == 2 {
        Some(3)
    } else if color_type == 4 {
        Some(2)
    } else if color_type == 6 {
        Some(4)
    } else {
        None
    }
}

/// A channel of the pixel at a place. Grey stands for all colours, and a pixel
/// without opacity is opaque.
pub open spec fn channel(data: Seq<u8>, color_type: u8, at: int, channel: int) -> u8 {
    if color_type == 0 {
        if channel < 3 {
            data[at]
        } else {
            255
        }
    } else if color_type == 2 {
        if channel < 3 {
            data[at + channel]
        } else {
            255
        }
    } else if color_type == 4 {
        if channel < 3 {
            data[at]
        } else {
            data[at + 1]
        }
    } else {
        data[at + channel]
    }
}

/// The samples of an image as red, green, blue and opacity. Samples that make
/// no whole pixel are left out.
pub open spec fn rgba_of(data: Seq<u8>, color_type: u8) -> Option<Seq<u8>> {
    match samples(color_type) {
        None => None,
        Some(size) => if size == 4 {
            Some(data)
        } else {
            Some(
                Seq::new(
                    4 * (data.len() / size),
                    |i: int| channel(data, color_type, i / 4 * size, i % 4),
                ),
            )
        },
    }
}

pub open spec fn icon_of(image: Option<(u32, u32, u8, Seq<u8>)>) -> Option<
    (u32, u32, Seq<u8>),
> {
    match image {
        None => None,
        Some((width, height, color_type, data)) => match rgba_of(data, color_type) {
            None => None,
            Some(rgba) => Some((width, height, rgba)),
        },
    }
}

fn channel_at(data: &Vec<u8>, color_type: u8, at: usize, place: usize) -> (value: u8)
    requires
        samples(color_type) is Some,
        at + samples(color_type)->0 <= data@.len(),
        place < 4,
    ensures
        value == channel(data@, color_type, at as int, place as int),
{
    assert(data.len() <= usize::MAX);
    if color_type == 6 {
        data[at + place]
    } else if place < 3 {
        if color_type == 2 {
            data[at + place]
        } else {
            data[at]
        }
    } else if color_type == 4 {
        data[at + 1]
    } else {
        255
    }
}

/// Turns the samples of an image into red, green, blue and opacity.
pub fn expand(image: PngImage) -> (icon: Option<Icon>)
    ensures
        match (
            icon,
            icon_of(Some((image.width, image.height, image.color_type, image.data@))),
        ) {
            (Some(icon), Some((width, height, rgba))) => {
                &&& icon.width == width
                &&& icon.height == height
                &&& icon.rgba@ == rgba
            },
            (None, None) => true,
            _ => false,
        },
{
    let color_type: u8 = image.color_type;
    let size: usize = match color_type {
        0 => 1,
        2 => 3,
        4 => 2,
        6 => 4,
        _ => {
            return None;
        },
    };
    if size == 4 {
        return Some(Icon { width: image.width, height: image.height, rgba: image.data });
    }
    let pixels: usize = image.data.len() / size;
    let mut rgba: Vec<u8> = Vec::new();
    let mut pixel: usize = 0;
    assert(rgba@ =~= Seq::new(0, |i: int| channel(image.data@, color_type, i / 4 * size, i % 4)));
    assert(pixels * size <= image.data@.len()) by (nonlinear_arith)
        requires
            pixels == image.data@.len() / size as nat,
            0 < size,
    ;
    while pixel < pixels
        invariant
            pixel <= pixels,
            color_type == image.color_type,
            samples(color_type) == Some(size as nat),
            0 < size < 4,
            pixels * size <= image.data@.len(),
            image.data@.len() <= usize::MAX,
            rgba@ == Seq::new(
                4 * pixel as nat,
                |i: int| channel(image.data@, color_type, i / 4 * size, i % 4),
            ),
        decreases pixels - pixel,
    {
        assert(pixel * size + size <= pixels * size) by (nonlinear_arith)
            requires
                pixel + 1 <= pixels,
                0 < size,
        ;
        assert(0 <= pixel * size) by (nonlinear_arith)
            requires
                0 <= pixel,
                0 < size,
        ;
        let at: usize = pixel * size;
        rgba.push(channel_at(&image.data, color_type, at, 0));
        rgba.push(channel_at(&image.data, color_type, at, 1));
        rgba.push(channel_at(&image.data, color_type, at, 2));
        rgba.push(channel_at(&image.data, color_type, at, 3));
        pixel += 1;
        assert(rgba@ =~= Seq::new(
            4 * pixel as nat,
            |i: int| channel(image.data@, color_type, i / 4 * size, i % 4),
        ));
    }
    Some(Icon { width: image.width, height: image.height, rgba })
}

/// Decodes a glyph.
pub fn decode_nswe_icon_rgba(bytes: &[u8]) -> (icon: Option<Icon>)
    ensures
        match (icon, icon_of(png_image(bytes@))) {
            (Some(icon), Some((width, height, rgba))) => {
                &&& icon.width == width
                &&& icon.height == height
                &&& icon.rgba@ == rgba
            },
            (Some(_), None) => false,
            (None, Some(_)) => usize::MAX < u64::MAX,
            (None, None) => true,
        },
{
    match decode_png(bytes) {
        Some(image) => expand(image),
        None => None,
    }
}

/// Whether a glyph has the size of one.
pub open spec fn fits(icon: Icon) -> bool {
    icon.width == ICON_SIDE && icon.height == ICON_SIDE && icon.rgba@.len() == 262_144
}

/// The byte of the picture of all glyphs at a place. The glyph of a mask stands
/// in column `mask % 4` and row `mask / 4`.
pub open spec fn atlas_byte(glyphs: Seq<Seq<u8>>, place: int) -> u8 {
    let pixel = place / 4;
    let x = pixel % 1_024;
    let y = pixel / 1_024;
    let mask = y / 256 * 4 + x / 256;
    glyphs[mask][(y % 256 * 256 + x % 256) * 4 + place % 4]
}

/// The picture of all glyphs.
pub open spec fn atlas_of(glyphs: Seq<Seq<u8>>) -> Seq<u8> {
    Seq::new(4_194_304, |i: int| atlas_byte(glyphs, i))
}

pub open spec fn glyphs_of(icons: Seq<Icon>) -> Seq<Seq<u8>> {
    icons.map_values(|icon: Icon| icon.rgba@)
}

/// Puts sixteen glyphs into one picture.
pub fn assemble_atlas(icons: &Vec<Icon>) -> (atlas: Vec<u8>)
    requires
        icons@.len() == 16,
        forall|i: int| 0 <= i < 16 ==> fits(#[trigger] icons@[i]),
    ensures
        atlas@ == atlas_of(glyphs_of(icons@)),
{
    let mut atlas: Vec<u8> = Vec::new();
    let mut place: usize = 0;
    assert(atlas@ =~= Seq::new(0, |i: int| atlas_byte(glyphs_of(icons@), i)));
    while place < 4_194_304
        invariant
            place <= 4_194_304,
            icons@.len() == 16,
            forall|i: int| 0 <= i < 16 ==> fits(#[trigger] icons@[i]),
            atlas@ == Seq::new(place as nat, |i: int| atlas_byte(glyphs_of(icons@), i)),
        decreases 4_194_304 - place,
    {
        let pixel: usize = place / 4;
        let x: usize = pixel % ATLAS_SIDE;
        let y: usize = pixel / ATLAS_SIDE;
        let mask: usize = y / ICON_SIDE * 4 + x / ICON_SIDE;
        assert(fits(icons@[mask as int]));
        assert(glyphs_of(icons@)[mask as int] == icons@[mask as int].rgba@);
        let byte: u8 = icons[mask].rgba[(y % ICON_SIDE * ICON_SIDE + x % ICON_SIDE) * 4 + place
            % 4];
        atlas.push(byte);
        place += 1;
        assert(atlas@ =~= Seq::new(place as nat, |i: int| atlas_byte(glyphs_of(icons@), i)));
    }
    assert(atlas@ =~= atlas_of(glyphs_of(icons@)));
    atlas
}

/// Every byte of a glyph stands in the picture, at its place in the field of its
/// mask.
pub proof fn atlas_holds_every_glyph(
    glyphs: Seq<Seq<u8>>,
    mask: int,
    row: int,
    column: int,
    part: int,
)
    requires
        0 <= mask < 16,
        0 <= row < 256,
        0 <= column < 256,
        0 <= part < 4,
    ensures
        atlas_of(glyphs)[((mask / 4 * 256 + row) * 1_024 + mask % 4 * 256 + column) * 4 + part]
            == glyphs[mask][(row * 256 + column) * 4 + part],
{
    let across = mask % 4;
    let down = mask / 4;
    let x = across * 256 + column;
    let y = down * 256 + row;
    let pixel = y * 1_024 + x;
    let place = pixel * 4 + part;
    assert(0 <= across < 4 && 0 <= down < 4 && mask == down * 4 + across);
    assert(0 <= x < 1_024 && 0 <= y < 1_024);
    assert(place / 4 == pixel && place % 4 == part);
    assert(pixel / 1_024 == y && pixel % 1_024 == x);
    assert(x / 256 == across && x % 256 == column);
    assert(y / 256 == down && y % 256 == row);
    assert(0 <= place < 4_194_304);
    assert(atlas_of(glyphs)[place] == atlas_byte(glyphs, place));
}

/// Decodes the files of sixteen glyphs, in the order of their masks, and puts
/// them into one picture. Without sixteen files that decode to glyphs of the
/// right size there is none.
pub fn nswe_icon_atlas(files: &Vec<Vec<u8>>) -> (atlas: Option<Vec<u8>>)
    ensures
        match atlas {
            Some(atlas) => {
                &&& files@.len() == 16
                &&& forall|i: int| 0 <= i < 16 ==> usable((#[trigger] files@[i])@)
                &&& atlas@ == atlas_of(Seq::new(16, |i: int| glyph_in(files@[i]@)))
            },
            None => files@.len() != 16 || usize::MAX < u64::MAX || exists|i: int|
                0 <= i < 16 && !usable((#[trigger] files@[i])@),
        },
{
    if files.len() != 16 {
        return None;
    }
    let mut icons: Vec<Icon> = Vec::new();
    let mut next: usize = 0;
    while next < 16
        invariant
            next <= 16,
            files@.len() == 16,
            decoded(files@, icons@, next as int),
        decreases 16 - next,
    {
        match decode_nswe_icon_rgba(files[next].as_slice()) {
            Some(icon) => {
                if icon.width as usize != ICON_SIDE || icon.height as usize != ICON_SIDE
                    || icon.rgba.len() != 262_144 {
                    assert(!usable(files@[next as int]@));
                    return None;
                }
                icons.push(icon);
            },
            None => {
                assert(usize::MAX < u64::MAX || !usable(files@[next as int]@));
                return None;
            },
        }
        next += 1;
    }
    proof {
        assert forall|i: int| 0 <= i < 16 implies usable((#[trigger] files@[i])@) by {
            assert(fits(icons@[i]));
        }
        assert(glyphs_of(icons@) =~= Seq::new(16, |i: int| glyph_in(files@[i]@)));
    }
    Some(assemble_atlas(&icons))
}

/// Whether a file decodes to a glyph of the right size.
pub open spec fn usable(bytes: Seq<u8>) -> bool {
    match icon_of(png_image(bytes)) {
        Some((width, height, rgba)) => width == ICON_SIDE && height == ICON_SIDE && rgba.len()
            == 262_144,
        None => false,
    }
}

/// The glyph that a file decodes to.
pub open spec fn glyph_in(bytes: Seq<u8>) -> Seq<u8> {
    match icon_of(png_image(bytes)) {
        Some((_, _, rgba)) => rgba,
        None => Seq::empty(),
    }
}

/// Whether the first files decode to glyphs.
spec fn decoded(files: Seq<Vec<u8>>, icons: Seq<Icon>, count: int) -> bool {
    &&& icons.len() == count <= files.len()
    &&& forall|i: int|
        0 <= i < count ==> fits(#[trigger] icons[i]) && icon_of(png_image(files[i]@)) == Some(
            (icons[i].width, icons[i].height, icons[i].rgba@),
        )
}

} // verus!
