use geodata_editor::error::AppError;
use geodata_editor::l2j::document::edits::normalize_editable_height;
use geodata_editor::l2j::storage::{decrypt_l2g_body, encrypt_l2g_body};
use geodata_editor::l2j::{
    Direction, Document, EditResult, EditableBlock, EditableBlockType, HeightEditResult, Layer,
    LayerAddress, SaveSummary, BLOCK_COUNT, COLUMNS_PER_BLOCK, MAX_EDITABLE_HEIGHT,
    MIN_EDITABLE_HEIGHT, NULL_HEIGHT,
};

fn simple_file(raw: i16) -> Vec<u8> {
    let mut bytes = Vec::with_capacity(BLOCK_COUNT * 3);
    for _ in 0..BLOCK_COUNT {
        bytes.push(0);
        bytes.extend_from_slice(&raw.to_le_bytes());
    }
    bytes
}

fn first_complex_then_simple() -> Vec<u8> {
    let mut bytes = Vec::with_capacity(BLOCK_COUNT * 3 + 126);
    bytes.push(1);
    for column in 0..COLUMNS_PER_BLOCK {
        let height: i16 = if column == 8 { 100 } else { 0 };
        bytes.extend_from_slice(&((height << 1) | 15).to_le_bytes());
    }
    for _ in 1..BLOCK_COUNT {
        bytes.push(0);
        bytes.extend_from_slice(&0_i16.to_le_bytes());
    }
    bytes
}

/// A multilayer block with the given packed layers in its first column and one
/// flat layer in every other, followed by simple blocks.
fn first_multilayer_then_simple(first: &[i16]) -> Vec<u8> {
    let mut bytes = vec![2];
    bytes.push(first.len() as u8);
    for raw in first {
        bytes.extend_from_slice(&raw.to_le_bytes());
    }
    for _ in 1..COLUMNS_PER_BLOCK {
        bytes.push(1);
        bytes.extend_from_slice(&15_i16.to_le_bytes());
    }
    for _ in 1..BLOCK_COUNT {
        bytes.push(0);
        bytes.extend_from_slice(&0_i16.to_le_bytes());
    }
    bytes
}

#[test]
fn simple_semantics_and_unedited_round_trip_are_lossless() {
    let bytes = simple_file(0x012f);
    let document = Document::from_bytes(bytes.clone()).unwrap();
    assert_eq!(
        document.cell(LayerAddress::new(0, 0, 0)),
        Some(Layer {
            height: 0x0120,
            nswe: 15
        })
    );
    assert_eq!(document.to_bytes().unwrap(), bytes);
}

#[test]
fn rejects_truncated_invalid_and_empty_multilayer() {
    assert!(Document::from_bytes(vec![]).is_err());
    let mut invalid = simple_file(0);
    invalid[0] = 3;
    assert!(Document::from_bytes(invalid).is_err());
    let mut empty = simple_file(0);
    empty[0] = 2;
    empty[1] = 0;
    assert!(Document::from_bytes(empty).is_err());
}

#[test]
fn editing_promotes_simple_and_undo_restores_original_bytes() {
    let bytes = simple_file(32);
    let mut document = Document::from_bytes(bytes.clone()).unwrap();
    let result = document.set_nswe(&[LayerAddress::new(0, 0, 0)], 0, "bloquear");
    assert_eq!(result.promoted_blocks, 1);
    assert_eq!(document.block_type(0, 0), Some(EditableBlockType::Complex));
    assert!(document.undo());
    assert_eq!(document.to_bytes().unwrap(), bytes);
    assert!(document.redo());
}

#[test]
fn editing_height_promotes_simple_and_normalizes_to_l2j_steps() {
    let bytes = simple_file(32);
    let mut document = Document::from_bytes(bytes.clone()).unwrap();
    let target = LayerAddress::new(3, 4, 0);

    let result = document.set_height(&[target], -3315, "altura").unwrap();

    assert_eq!(result.height, -3312);
    assert_eq!(result.changed_cells, 1);
    assert_eq!(result.promoted_blocks, 1);
    assert_eq!(document.block_type(0, 0), Some(EditableBlockType::Complex));
    assert_eq!(document.cell(target).unwrap().height, -3312);
    assert_eq!(
        document.cell(LayerAddress::new(0, 0, 0)).unwrap().height,
        32
    );
    assert!(document.undo());
    assert_eq!(document.to_bytes().unwrap(), bytes);
    assert!(document
        .set_height(&[target], NULL_HEIGHT as i32, "sentinela")
        .is_err());
}

#[test]
fn nswe_is_symmetric_across_blocks() {
    let mut document = Document::from_bytes(simple_file(32)).unwrap();
    document.set_nswe(&[LayerAddress::new(7, 0, 0)], Layer::OPEN, "abrir");
    assert_ne!(
        document.cell(LayerAddress::new(7, 0, 0)).unwrap().nswe & 1,
        0
    );
    assert_ne!(
        document.cell(LayerAddress::new(8, 0, 0)).unwrap().nswe & 2,
        0
    );
}

#[test]
fn opening_a_link_rejects_a_neighbour_above_the_climb_limit() {
    let mut document = Document::from_bytes(first_complex_then_simple()).unwrap();
    let result = document.set_nswe(
        &[LayerAddress::new(0, 0, 0)],
        Direction::East.bit(),
        "abrir leste",
    );
    assert!(!result.rejected_links.is_empty());
    assert_eq!(
        document.cell(LayerAddress::new(0, 0, 0)).unwrap().nswe & Direction::East.bit(),
        0
    );
}

#[test]
fn explicit_open_override_keeps_all_four_sides_and_mirrors_nearest_layer() {
    let mut document = Document::from_bytes(first_complex_then_simple()).unwrap();
    let target = LayerAddress::new(0, 0, 0);
    document.set_nswe(&[target], 0, "bloquear");
    let result = document.force_set_nswe(&[target], Layer::OPEN, "liberar 100%");

    assert_eq!(document.cell(target).unwrap().nswe, Layer::OPEN);
    assert_ne!(result.changed_cells, 0);
    // The east neighbour is 100 units above and is deliberately outside
    // the normal climb threshold. The explicit editor action still
    // mirrors it, making the authored override symmetric.
    assert_ne!(
        document.cell(LayerAddress::new(1, 0, 0)).unwrap().nswe & Direction::West.bit(),
        0
    );
}

#[test]
fn conversions_and_restore_are_checked() {
    let mut document = Document::from_bytes(simple_file(32)).unwrap();
    assert!(document.convert_simple_to_complex(0, 0).unwrap());
    assert!(document.convert_complex_to_multilayer(0, 0).unwrap());
    assert!(document.convert_multilayer_to_complex(0, 0).unwrap());
    assert!(document.convert_to_simple(0, 0).unwrap());
    document.set_nswe(&[LayerAddress::new(0, 0, 0)], 0, "bloquear");
    assert!(document.restore_block(0, 0).unwrap());
    assert_eq!(document.changed_blocks(), 0);

    assert!(document
        .convert_to_type(0, 0, EditableBlockType::Multilayer)
        .unwrap());
    assert_eq!(
        document.block_type(0, 0),
        Some(EditableBlockType::Multilayer)
    );
    assert!(document.undo());
    assert_eq!(document.block_type(0, 0), Some(EditableBlockType::Simple));
}

#[test]
fn save_as_can_replace_the_opened_file_after_creating_a_backup() {
    let original = simple_file(32);
    let path = "C:\\geodata\\overwrite.l2j";
    let mut document = Document::open(path, original.clone()).expect("open source L2J");
    assert_eq!(document.original_path(), Some(path));
    document.set_nswe(&[LayerAddress::new(0, 0, 0)], 0, "bloquear");
    let plan = document
        .save_as(path, "C:\\geodata", true)
        .expect("replace opened L2J");

    assert_eq!(plan.temporary_extension, "l2j.editor.tmp");
    assert_eq!(plan.backup_extension, "l2j.bak");
    assert_eq!(plan.summary.path, path);
    assert_eq!(plan.summary.bytes, plan.bytes.len() as u64);
    assert_eq!(
        Document::open(path, plan.bytes)
            .expect("reopen replacement")
            .cell(LayerAddress::new(0, 0, 0))
            .unwrap()
            .nswe,
        0
    );
}

fn l2g_file(body: Vec<u8>) -> Vec<u8> {
    let header = [0x12, 0x34, 0x56, 0x78];
    let encrypted = encrypt_l2g_body(&header, &body);
    let mut file = Vec::with_capacity(header.len() + encrypted.len());
    file.extend_from_slice(&header);
    file.extend_from_slice(&encrypted);
    file
}

fn conv_dat_file(height: i16) -> Vec<u8> {
    let mut file = Vec::with_capacity(18 + BLOCK_COUNT * 6);
    file.extend_from_slice(&[20, 20]);
    file.extend_from_slice(&128_i16.to_le_bytes());
    file.extend_from_slice(&16_i16.to_le_bytes());
    file.extend_from_slice(&0_i32.to_le_bytes());
    file.extend_from_slice(&(BLOCK_COUNT as i32).to_le_bytes());
    file.extend_from_slice(&(BLOCK_COUNT as i32).to_le_bytes());
    for _ in 0..BLOCK_COUNT {
        file.extend_from_slice(&0_i16.to_le_bytes());
        file.extend_from_slice(&height.to_le_bytes());
        file.extend_from_slice(&height.to_le_bytes());
    }
    file
}

#[test]
fn opens_edits_and_reencrypts_l2g() {
    let path = "geodata-editor.l2g";
    let original = l2g_file(simple_file(32));

    let mut document = Document::open(path, original.clone()).expect("open L2G");
    assert_eq!(
        document.cell(LayerAddress::new(0, 0, 0)).unwrap().height,
        32
    );
    assert_eq!(document.to_bytes().expect("round-trip L2G"), original);
    document.set_nswe(&[LayerAddress::new(0, 0, 0)], 0, "bloquear");
    let plan = document.save_as(path, "", true).expect("save L2G");

    assert_eq!(plan.backup_extension, "l2g.bak");
    assert_eq!(
        Document::open(path, plan.bytes)
            .expect("reopen saved L2G")
            .cell(LayerAddress::new(0, 0, 0))
            .unwrap()
            .nswe,
        0
    );
}

#[test]
fn opens_edits_and_rewrites_conv_dat_header() {
    let path = "20_20_conv.dat";
    let original = conv_dat_file(32);

    let mut document = Document::open(path, original.clone()).expect("open Conv DAT");
    assert_eq!(
        document.cell(LayerAddress::new(0, 0, 0)).unwrap().height,
        32
    );
    assert_eq!(document.to_bytes().expect("round-trip Conv DAT"), original);
    document.set_nswe(&[LayerAddress::new(0, 0, 0)], 0, "bloquear");
    let plan = document.save_as(path, "", true).expect("save Conv DAT");

    let saved = plan.bytes;
    assert_eq!(plan.backup_extension, "dat.bak");
    assert_eq!(i32::from_le_bytes(saved[6..10].try_into().unwrap()), 64);
    assert_eq!(
        i32::from_le_bytes(saved[10..14].try_into().unwrap()),
        BLOCK_COUNT as i32
    );
    assert_eq!(
        i32::from_le_bytes(saved[14..18].try_into().unwrap()),
        BLOCK_COUNT as i32 - 1
    );
    assert_eq!(
        Document::open(path, saved)
            .expect("reopen saved Conv DAT")
            .cell(LayerAddress::new(0, 0, 0))
            .unwrap()
            .nswe,
        0
    );
}

/// The key of an enciphered body folds the bytes of `header ^ checksum`.
#[test]
fn l2g_cipher_starts_from_the_checksum() {
    let header = [0x12, 0x34, 0x56, 0x78];
    let checksum = -2_126_429_781_i32 ^ i32::from_be_bytes(header);
    let key = checksum.to_be_bytes().into_iter().fold(0, |key, byte| key ^ byte);
    assert_eq!(encrypt_l2g_body(&header, &[7, 9]), vec![7 ^ key, 9 ^ 7]);
    assert_eq!(decrypt_l2g_body(&header, &[7 ^ key, 9 ^ 7]), vec![7, 9]);
    let plain = (-2_126_429_781_i32).to_be_bytes();
    assert_eq!(encrypt_l2g_body(&plain, &[7, 9]), vec![7, 9]);
    assert_eq!(decrypt_l2g_body(&plain, &[7, 9]), vec![7, 9]);
}

#[test]
fn parse_errors_name_the_block_and_the_offset() {
    let message = |bytes: Vec<u8>| Document::from_bytes(bytes).unwrap_err();
    assert_eq!(
        message(vec![]),
        AppError::InvalidData("unexpected end of L2J at block 0, offset 0".into())
    );
    assert_eq!(
        message(vec![0, 1]),
        AppError::InvalidData("unexpected end of L2J at block 0, offset 2".into())
    );
    assert_eq!(
        message(vec![0, 1, 0, 9]),
        AppError::InvalidData("invalid L2J/L2G block type 9 at block 1".into())
    );
    assert_eq!(
        message(vec![2, 1, 0, 0, 0]),
        AppError::InvalidData("empty multilayer column 1 in block 0".into())
    );
    let mut longer = simple_file(0);
    longer.extend_from_slice(&[1, 2, 3]);
    assert_eq!(
        message(longer),
        AppError::InvalidData("3 bytes remain after the 65,536 .l2j blocks".into())
    );
}

#[test]
fn file_errors_name_what_is_wrong() {
    let open = |path: &str, bytes: Vec<u8>| Document::open(path, bytes).unwrap_err();
    assert_eq!(
        open("map.bin", vec![]).message(),
        "unsupported geodata format; expected .l2j, .l2g, or _conv.dat"
    );
    assert_eq!(
        open("a.l2g", vec![1, 2]).message(),
        "L2G header is shorter than 4 bytes"
    );
    assert_eq!(
        open("20_20_CONV.DAT", vec![1, 2]).message(),
        "Conv DAT header is shorter than 18 bytes"
    );
    assert_eq!(
        open("folder/..", vec![]),
        AppError::InvalidArgument("geodata file name is not valid Unicode".into())
    );
    let mut negative = vec![0; 18];
    negative.extend_from_slice(&[7, 0, 0xff, 0xff]);
    assert_eq!(
        open("1_conv.dat", negative).message(),
        "negative Conv DAT layer count in column 0 of block 0"
    );
    let mut crowded = vec![0; 18];
    crowded.extend_from_slice(&[7, 0]);
    for _ in 0..3 {
        crowded.extend_from_slice(&0x7fff_i16.to_le_bytes());
        crowded.resize(crowded.len() + 2 * 0x7fff, 0);
    }
    assert_eq!(
        open("1_conv.dat", crowded).message(),
        "too many layers in block 0"
    );
}

#[test]
fn edited_multilayer_blocks_are_read_back() {
    // 16 and 48 packed with an open mask, above one another.
    let bytes = first_multilayer_then_simple(&[(16 << 1) | 15, (48 << 1) | 15]);
    let mut document = Document::from_bytes(bytes).unwrap();
    assert_eq!(document.max_layer_count(), 2);
    let target = LayerAddress::new(0, 0, 0);
    document.set_height(&[target], 96, "subir").unwrap();
    // The raised floor moves behind the platform that it now lies above.
    assert_eq!(document.cell(target).unwrap().height, 48);
    assert_eq!(document.cell(LayerAddress::new(0, 0, 1)).unwrap().height, 96);
    let reopened = Document::from_bytes(document.to_bytes().unwrap()).unwrap();
    assert_eq!(reopened.cell(target), document.cell(target));
    assert_eq!(reopened.layer_count(0, 0), Some(2));
    assert_eq!(reopened.changed_blocks(), 0);
}

#[test]
fn redo_and_undo_reverse_each_other() {
    let mut document = Document::from_bytes(simple_file(32)).unwrap();
    assert!(!document.undo());
    assert_eq!(document.undo_label(), None);
    let target = LayerAddress::new(5, 5, 0);
    document.set_height(&[target], 8, "altura").unwrap();
    document.set_nswe(&[target], 3, "mascara");
    let edited = document.to_bytes().unwrap();
    assert_eq!(document.undo_label(), Some("mascara"));
    assert!(document.undo());
    assert_eq!(document.redo_label(), Some("mascara"));
    assert_eq!(document.undo_label(), Some("altura"));
    assert!(document.redo());
    assert_eq!(document.to_bytes().unwrap(), edited);
    assert!(document.undo());
    document.set_height(&[target], 16, "outra").unwrap();
    assert!(!document.redo());
}

#[test]
fn edits_report_what_they_leave_out() {
    let mut document = Document::from_bytes(first_complex_then_simple()).unwrap();
    let result = document.set_nswe(
        &[
            LayerAddress::new(2048, 3, 0),
            LayerAddress::new(0, 0, 7),
            LayerAddress::new(0, 0, 0),
        ],
        0xff,
        "abrir",
    );
    assert_eq!(
        result.rejected_links,
        vec![
            "outside grid: 2048,3",
            "layer 7 does not exist at 0,0",
            "N leaves the map",
            "W leaves the map",
            "E at 0,0 has no neighbour within climb 16",
        ]
    );
    assert_eq!(document.cell(LayerAddress::new(0, 0, 0)).unwrap().nswe, 4);
    // The sentinel height cannot be edited by hand.
    let mut bytes = first_complex_then_simple();
    bytes[1..3].copy_from_slice(&(-32_768_i16).to_le_bytes());
    let mut document = Document::from_bytes(bytes).unwrap();
    let forced = document.force_set_nswe(&[LayerAddress::new(0, 0, 0)], 15, "forcar");
    assert_eq!(
        forced.rejected_links,
        vec!["layer 0 at 0,0 is a null-height sentinel"]
    );
    let raised = document
        .set_height(&[LayerAddress::new(0, 0, 0)], 8, "altura")
        .unwrap();
    assert_eq!(
        raised.rejected_cells,
        vec!["layer 0 at 0,0 is a null-height sentinel"]
    );
    assert_eq!(raised.changed_cells, 0);
}

#[test]
fn heights_are_rounded_toward_zero() {
    assert_eq!(normalize_editable_height(15), Ok(8));
    assert_eq!(normalize_editable_height(-15), Ok(-8));
    assert_eq!(normalize_editable_height(-7), Ok(0));
    assert_eq!(normalize_editable_height(16_383), Ok(MAX_EDITABLE_HEIGHT));
    assert_eq!(normalize_editable_height(-16_383), Ok(MIN_EDITABLE_HEIGHT));
    assert_eq!(
        normalize_editable_height(16_384).unwrap_err().message(),
        "height must be between -16376 and 16376"
    );
}

#[test]
fn conversions_keep_the_cells_or_say_why_not() {
    let mut document = Document::from_bytes(first_complex_then_simple()).unwrap();
    assert_eq!(
        document.convert_to_simple(0, 0).unwrap_err().message(),
        "simple needs 64 equal one-layer cells with NSWE aberto"
    );
    assert_eq!(
        document.convert_multilayer_to_complex(0, 0).unwrap_err().message(),
        "only a multilayer block can become complex"
    );
    assert_eq!(
        document.convert_complex_to_multilayer(1, 0).unwrap_err().message(),
        "select a complex block to convert to multilayer"
    );
    assert_eq!(
        document.convert_to_type(256, 0, EditableBlockType::Simple).unwrap_err().message(),
        "invalid L2J block 256,0"
    );
    assert_eq!(document.convert_to_type(0, 0, EditableBlockType::Complex), Ok(false));
    let before = document.cell(LayerAddress::new(1, 0, 0));
    assert!(document.convert_complex_to_multilayer(0, 0).unwrap());
    assert_eq!(document.cell(LayerAddress::new(1, 0, 0)), before);
    let bytes = first_multilayer_then_simple(&[15, 47]);
    let mut layered = Document::from_bytes(bytes).unwrap();
    assert_eq!(
        layered.convert_multilayer_to_complex(0, 0).unwrap_err().message(),
        "multilayer needs one layer in every column to become complex"
    );
    assert!(layered.validate().is_ok());
}

#[test]
fn saving_keeps_the_format() {
    let document = Document::from_bytes(simple_file(32)).unwrap();
    assert_eq!(
        document.save_as("map.l2g", "", true).unwrap_err().message(),
        "Salvar como precisa manter o formato .l2j"
    );
    assert_eq!(
        document.save_as("out/map.L2J", "out", false).unwrap_err().message(),
        "diretório de saída não existe: out"
    );
    let plan = document.save_as("out/map.L2J", "out", true).unwrap();
    assert_eq!(plan.summary.changed_blocks, 0);
    assert_eq!(plan.summary.changed_cells, 0);
    assert_eq!(plan.temporary_extension, "L2J.editor.tmp");
}

#[test]
fn save_summary_counts_changes() {
    let mut document = Document::from_bytes(simple_file(32)).unwrap();
    document.set_nswe(&[LayerAddress::new(4, 4, 0)], 0, "bloquear");
    let plan = document.save_as("map.l2j", "", true).unwrap();
    assert_eq!(plan.summary.changed_blocks, 1);
    assert_eq!(plan.summary.conversion_blocks, 1);
    // The cell and the sides of its four neighbours.
    assert_eq!(plan.summary.changed_cells, 5);
    assert_eq!(plan.summary.changed_directions, 8);
}

#[test]
fn blank_canvas_is_flat_and_open() {
    let document = Document::blank();
    assert_eq!(document.changed_blocks(), 0);
    assert_eq!(Document::dimensions(), (2048, 2048));
    assert_eq!(
        document.cell(LayerAddress::new(2047, 2047, 0)),
        Some(Layer { height: 0, nswe: Layer::OPEN })
    );
    assert_eq!(document.cell(LayerAddress::new(2048, 0, 0)), None);
    assert_eq!(document.to_bytes().unwrap(), simple_file(0));
    assert!(matches!(document.block(3, 3), Some(EditableBlock::Simple(_))));
    assert!(!document.is_block_dirty(3, 3));
    assert_eq!(document.original_path(), None);
}

#[test]
fn directions_turn_round() {
    for direction in Direction::ALL {
        assert_eq!(direction.opposite().opposite(), direction);
        let (x, y) = direction.offset();
        let (u, v) = direction.opposite().offset();
        assert_eq!((x + u, y + v), (0, 0));
    }
}

#[test]
fn edited_bytes_read_back_as_the_same_blocks() {
    let layers: Vec<i16> = (0..255).map(|layer| (layer * 16) | 15).collect();
    let mut document = Document::from_bytes(first_multilayer_then_simple(&layers)).unwrap();
    document.set_nswe(&[LayerAddress::new(0, 0, 254)], 0, "bloquear");
    document
        .set_height(&[LayerAddress::new(0, 0, 3)], 4_000, "subir")
        .unwrap();
    document.force_set_nswe(&[LayerAddress::new(9, 9, 0)], 5, "forcar");
    document
        .convert_to_type(7, 7, EditableBlockType::Multilayer)
        .unwrap();
    assert!(document.undo());
    assert!(document.redo());
    assert_eq!(document.layer_count(0, 0), Some(255));

    let read = Document::from_bytes(document.to_bytes().unwrap()).unwrap();
    for x in 0..256 {
        for y in 0..256 {
            assert_eq!(read.block(x, y), document.block(x, y));
        }
    }
}

/// A `_conv.dat` file whose first block is multilayer, with the given number of
/// layers in its first column and one in every other.
fn tall_conv_dat_file(layers: i16) -> Vec<u8> {
    let mut bytes = vec![0; 18];
    bytes.extend_from_slice(&65_i16.to_le_bytes());
    for column in 0..COLUMNS_PER_BLOCK {
        let count = if column == 0 { layers } else { 1 };
        bytes.extend_from_slice(&count.to_le_bytes());
        for _ in 0..count {
            bytes.extend_from_slice(&15_i16.to_le_bytes());
        }
    }
    for _ in 1..BLOCK_COUNT {
        bytes.extend_from_slice(&[0; 6]);
    }
    bytes
}

#[test]
fn conv_dat_announces_so_many_layers_and_no_more() {
    let mut fits = Document::open("22_22_conv.dat", tall_conv_dat_file(16_288)).unwrap();
    fits.force_set_nswe(&[LayerAddress::new(0, 0, 0)], 0, "bloquear");
    let bytes = fits.to_bytes().unwrap();
    let read = Document::open("22_22_conv.dat", bytes).unwrap();
    assert_eq!(read.block(0, 0), fits.block(0, 0));

    let mut tall = Document::open("22_22_conv.dat", tall_conv_dat_file(16_289)).unwrap();
    assert!(tall.to_bytes().is_ok());
    tall.force_set_nswe(&[LayerAddress::new(0, 0, 0)], 0, "bloquear");
    assert!(matches!(
        tall.to_bytes(),
        Err(AppError::InvalidData(message)) if message == "Conv DAT multilayer payload is too large"
    ));
}

#[test]
fn a_copy_goes_its_own_way() {
    let mut document = Document::from_bytes(simple_file(32)).unwrap();
    let targets = [LayerAddress::new(0, 0, 0), LayerAddress::new(9_999, 0, 0)];
    let result = document.force_set_nswe(&targets, 0, "bloquear");
    let mut copy = document.clone();
    assert_eq!(copy.to_bytes().unwrap(), document.to_bytes().unwrap());
    assert_eq!(copy.undo_label(), Some("bloquear"));
    assert!(copy.undo());
    assert_eq!(copy.to_bytes().unwrap(), simple_file(32));
    assert_ne!(document.to_bytes().unwrap(), simple_file(32));

    let twin = result.clone();
    assert_eq!(twin.changed_cells, 1);
    assert_eq!(twin.rejected_links, ["outside grid: 9999,0"]);
    assert_eq!(EditResult::default().changed_links, 0);
    assert_eq!(HeightEditResult::default().height, 0);
    assert_eq!(SaveSummary::default().clone().path, "");
}
