use geodata_editor::editor::{
    escape, format_memory, geodata_region, parse, parse_memory, unescape, wants_help,
    EditorMemory, EditorOptions, EditorTheme, MapType,
};
use geodata_editor::error::AppError;

fn arguments(values: &[&str]) -> Vec<String> {
    values.iter().map(|value| value.to_string()).collect()
}

#[test]
fn parses_client_context_with_a_map_type() {
    let options = parse(&arguments(&[
        "GeodataEditor",
        "--client-root",
        ".",
        "--type",
        "Normal",
    ]))
    .unwrap();
    assert_eq!(options.input, None);
    assert_eq!(options.map_type, Some(MapType::Normal));
}

#[test]
fn rejects_an_unknown_map_type() {
    let error = parse(&arguments(&["GeodataEditor", "--type", "chronicle"])).unwrap_err();
    assert!(error.message().contains("invalid map type"));
}

#[test]
fn rejects_an_l2j_without_a_client_root() {
    let error = parse(&arguments(&["GeodataEditor", "--input", "x.l2j"])).unwrap_err();
    assert!(error.message().contains("--client-root"));
}

#[test]
fn reads_the_region_of_every_geodata_extension() {
    assert_eq!(
        geodata_region(r"D:\Geodata\22_22.l2j").as_deref(),
        Some("22_22")
    );
    assert_eq!(geodata_region("22_22.l2g").as_deref(), Some("22_22"));
    assert_eq!(geodata_region("22_22_conv.dat").as_deref(), Some("22_22"));
    assert_eq!(geodata_region("_conv.dat"), None);
}

#[test]
fn names_the_unreal_package_of_each_map_type() {
    assert_eq!(MapType::Classic.package_name("22_22"), "22_22_Classic");
    assert_eq!(MapType::Normal.package_name("22_22"), "22_22");
}

#[test]
fn memory_round_trip_preserves_windows_paths() {
    let memory = EditorMemory {
        client_root: r"C:\Lineage II\Client".into(),
        geodata_path: r"D:\Geodata\22_22.l2j".into(),
        map_type: MapType::Normal,
        theme: EditorTheme::Light,
    };
    assert_eq!(parse_memory(&format_memory(&memory)), memory);
}

#[test]
fn escaping_keeps_a_setting_on_one_line() {
    let value = "first\nsecond\\third\r";
    let escaped = escape(value);
    assert!(!escaped.contains('\n') && !escaped.contains('\r'));
    let characters: Vec<char> = escaped.chars().collect();
    assert_eq!(unescape(&characters), value);
}

#[test]
fn unknown_settings_are_skipped() {
    let memory = parse_memory("colour=red\nclient_root=C:/L2\nno separator\n");
    assert_eq!(memory.client_root, "C:/L2");
    assert_eq!(memory.geodata_path, "");
}

#[test]
fn keywords_name_their_values() {
    for map_type in MapType::ALL {
        assert_eq!(MapType::parse(map_type.key()), Some(map_type));
        assert_eq!(map_type.other().other(), map_type);
    }
    for theme in [EditorTheme::Dark, EditorTheme::Light] {
        assert_eq!(EditorTheme::parse(theme.key()), Some(theme));
        assert_eq!(theme.toggled().toggled(), theme);
    }
    assert_eq!(MapType::parse("CLASSIC"), Some(MapType::Classic));
    assert_eq!(EditorTheme::parse("grey"), None);
}

#[test]
fn help_is_asked_for_by_flag() {
    assert!(wants_help(&arguments(&["GeodataEditor", "--help"])));
    assert!(!wants_help(&arguments(&["GeodataEditor"])));
}

#[test]
fn a_flag_without_a_value_is_refused() {
    assert!(matches!(
        parse(&arguments(&["GeodataEditor", "--input"])),
        Err(AppError::InvalidArgument(_))
    ));
}

#[test]
fn paths_of_the_command_line_are_checked() {
    let options = EditorOptions {
        input: Some("22_22.l2j".into()),
        client_root: Some("C:/L2".into()),
        map_type: None,
    };
    assert!(options.check_paths(true, true).is_ok());
    assert!(options.check_paths(false, true).is_err());
    assert!(options.check_paths(true, false).is_err());
}

#[test]
fn prefixes_of_paths_name_no_file() {
    for path in [
        r"\\server\22_22.l2j",
        r"//server/22_22.l2j",
        r"\\server\22_22.l2j\",
        r"\\.\22_22.l2j",
        r"\\?\22_22.l2j",
        r"\\?\UNC\server\22_22.l2j",
        r"\\?\UNC\22_22.l2j",
        r"\\?\C:",
        "C:",
        r"\\?\C:\maps\22_22.l2j\.",
    ] {
        assert_eq!(geodata_region(path), None, "{path}");
    }
    for path in [
        r"\\server\share\22_22.l2j",
        r"//server/share/22_22.l2j",
        r"\\22_22.l2j",
        r"\22_22.l2j",
        r"\\.\device\22_22.l2j",
        r"\\?\maps\22_22.l2j",
        r"\\?\UNC\server\share\22_22.l2j",
        r"\\?\C:\22_22.l2j",
        r"\\?\C:/22_22.l2j",
        "//?/C:/22_22.l2j",
        "C:22_22.l2j",
        r"C:\maps\22_22.l2j\.",
    ] {
        assert_eq!(geodata_region(path).as_deref(), Some("22_22"), "{path}");
    }
    assert_eq!(
        geodata_region(r"\\?\C:\maps/22_22.l2j").as_deref(),
        Some("maps/22_22")
    );
}
