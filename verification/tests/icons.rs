use geodata_editor::icons::{
    assemble_atlas, decode_nswe_icon_rgba, expand, nswe_icon_atlas, Icon, PngImage,
};

fn encode(width: u32, height: u32, color: png::ColorType, data: &[u8]) -> Vec<u8> {
    let mut file = Vec::new();
    let mut encoder = png::Encoder::new(&mut file, width, height);
    encoder.set_color(color);
    encoder.set_depth(png::BitDepth::Eight);
    let mut writer = encoder.write_header().unwrap();
    writer.write_image_data(data).unwrap();
    writer.finish().unwrap();
    file
}

/// A glyph with one opaque pixel, whose colour is the mask.
fn glyph(mask: u8) -> Vec<u8> {
    let mut data = vec![0; 256 * 256 * 4];
    let place = (usize::from(mask) * 7 + 3) * 4;
    data[place] = mask;
    data[place + 3] = 255;
    encode(256, 256, png::ColorType::Rgba, &data)
}

#[test]
fn nswe_icon_atlas_contains_all_sixteen_status_glyphs() {
    let files = (0..16).map(glyph).collect();
    let atlas = nswe_icon_atlas(&files).unwrap();
    assert_eq!(atlas.len(), 1024 * 1024 * 4);
    for mask in 0..16_usize {
        let origin_x = (mask % 4) * 256;
        let origin_y = (mask / 4) * 256;
        let contains_opaque_pixel = (0..256).any(|row| {
            (0..256).any(|column| atlas[((origin_y + row) * 1024 + origin_x + column) * 4 + 3] > 0)
        });
        assert!(contains_opaque_pixel, "mask {mask} has no visible glyph");
        let place = (origin_y * 1024 + origin_x + mask * 7 + 3) * 4;
        assert_eq!(usize::from(atlas[place]), mask);
    }
}

#[test]
fn every_colour_type_becomes_red_green_blue_and_opacity() {
    let grey = encode(2, 1, png::ColorType::Grayscale, &[7, 9]);
    let icon = decode_nswe_icon_rgba(&grey).unwrap();
    assert_eq!((icon.width, icon.height), (2, 1));
    assert_eq!(icon.rgba, [7, 7, 7, 255, 9, 9, 9, 255]);
    let faded = encode(1, 1, png::ColorType::GrayscaleAlpha, &[7, 9]);
    assert_eq!(decode_nswe_icon_rgba(&faded).unwrap().rgba, [7, 7, 7, 9]);
    let colour = encode(1, 1, png::ColorType::Rgb, &[1, 2, 3]);
    assert_eq!(decode_nswe_icon_rgba(&colour).unwrap().rgba, [1, 2, 3, 255]);
    let full = encode(1, 1, png::ColorType::Rgba, &[1, 2, 3, 4]);
    assert_eq!(decode_nswe_icon_rgba(&full).unwrap().rgba, [1, 2, 3, 4]);
}

#[test]
fn a_palette_is_no_picture() {
    let image = PngImage {
        width: 1,
        height: 1,
        color_type: 3,
        data: vec![0],
    };
    assert!(expand(image).is_none());
    assert!(decode_nswe_icon_rgba(b"not a picture").is_none());
}

#[test]
fn glyphs_of_another_size_or_number_make_no_atlas() {
    let mut files: Vec<Vec<u8>> = (0..16).map(glyph).collect();
    files[5] = encode(1, 1, png::ColorType::Rgba, &[1, 2, 3, 4]);
    assert!(nswe_icon_atlas(&files).is_none());
    files.truncate(5);
    assert!(nswe_icon_atlas(&files).is_none());
}

#[test]
fn glyphs_stand_four_by_four() {
    let icons = (0..16_u8)
        .map(|mask| Icon {
            width: 256,
            height: 256,
            rgba: vec![mask; 256 * 256 * 4],
        })
        .collect();
    let atlas = assemble_atlas(&icons);
    assert_eq!(atlas[0], 0);
    assert_eq!(atlas[256 * 4], 1);
    assert_eq!(atlas[256 * 1024 * 4], 4);
    assert_eq!(atlas[1024 * 1024 * 4 - 1], 15);
}
