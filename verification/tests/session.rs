use geodata_editor::editor::{EditorMemory, EditorOptions, EditorTheme, MapType};
use geodata_editor::input::{Held, InputEvent, Key};
use geodata_editor::l2j::{Document, EditableBlockType, LayerAddress, BLOCK_COUNT};
use geodata_editor::navigation::{ButtonEvent, CameraInput, Motion};
use geodata_editor::panel::cell_tooltip;
use geodata_editor::picking::Request;
use geodata_editor::project::{
    initial_ui, invalid_client, load_failure, map_package, map_package_availability,
    map_package_or_prompt, no_package, open_failure, project_status, reset_selection,
    visual_failure, welcome_name, Completion, PackageAvailability, PreparedProject,
    ProjectOutcome,
};
use geodata_editor::scene::{
    material_blend, plan_scene, BatchInfo, BlendFactor, TexturedPipelineKey, VisualBlend,
};
use geodata_editor::session::{ActiveProject, EditorAction, Session, Slot};
use geodata_editor::status::{
    editor_status_tone, nswe_preset_tooltip, StatusTone, NSWE_PRESET_MASKS,
};
use geodata_editor::ui::{editor_active_selection_count, EditorUi};
use geodata_editor::upload::{
    material_texture_upload_bytes, reserve_upload_bytes, UPLOAD_BATCH_BYTES,
};

fn session(document: Document) -> Session {
    let ui = initial_ui(&EditorOptions::new(), &EditorMemory::new(), true);
    Session {
        max_layer_count: document.max_layer_count().max(1),
        document,
        ui,
        loaded: true,
        has_context: true,
        package_count: 0,
        slot: Slot::Idle,
        active: None,
        scene: false,
    }
}

const FREE: Held = Held {
    ctrl: false,
    shift: false,
    left: false,
    navigating: false,
};

const CTRL: Held = Held {
    ctrl: true,
    shift: false,
    left: false,
    navigating: false,
};

const SHIFT: Held = Held {
    ctrl: false,
    shift: true,
    left: false,
    navigating: false,
};

fn cell(x: usize, y: usize) -> LayerAddress {
    LayerAddress::new(x, y, 0)
}

fn availability(
    packages: &[&str],
    region: &str,
    map_type: MapType,
) -> PackageAvailability {
    let selected = map_type.package_name(region);
    let other = map_type.other().package_name(region);
    map_package_availability(
        region,
        map_type,
        packages.contains(&selected.as_str()),
        packages.contains(&other.as_str()),
    )
}

#[test]
fn a_missing_map_flavour_falls_back_to_the_one_the_client_ships() {
    // A classic client names the region `25_25_Classic`, a normal one
    // `25_25`. This client only ships the normal name.
    let packages = ["25_25"];
    assert!(
        matches!(
            availability(&packages, "25_25", MapType::Classic),
            PackageAvailability::OnlyOther(MapType::Normal, name) if name == "25_25"
        ),
        "the classic name is absent, so the normal one must be offered"
    );
    assert!(
        matches!(
            availability(&packages, "25_25", MapType::Normal),
            PackageAvailability::Selected(name) if name == "25_25"
        ),
        "the selected flavour exists and must be used as is"
    );
    assert!(matches!(
        availability(&packages, "26_26", MapType::Classic),
        PackageAvailability::Neither
    ));

    // And the reverse direction, on a client that only ships classic.
    let packages = ["30_30_Classic"];
    assert!(matches!(
        availability(&packages, "30_30", MapType::Normal),
        PackageAvailability::OnlyOther(MapType::Classic, name) if name == "30_30_Classic"
    ));

    // The prompt the UI shows carries both names and the flavour to
    // switch to, so accepting it can load without asking again.
    let pending = map_package_or_prompt("30_30", MapType::Normal, false, true)
        .expect_err("the normal name is absent")
        .expect("the classic name exists, so a prompt is expected");
    assert_eq!(pending.missing, "30_30");
    assert_eq!(pending.available, "30_30_Classic");
    assert_eq!(pending.available_type, MapType::Classic);
    assert_eq!(
        pending.question(),
        "O mapa 30_30 não existe, mas o 30_30_Classic existe. Quer usar ele?"
    );
    assert_eq!(
        map_package_or_prompt("26_26", MapType::Classic, false, false).expect_err("absent"),
        None,
        "neither flavour exists, so there is nothing to offer"
    );

    // What the "Usar ..." button does: switch the map type, then reopen.
    // The second pass must resolve straight to a package.
    assert_eq!(
        map_package_or_prompt("30_30", pending.available_type, true, false),
        Ok("30_30_Classic".into()),
        "accepting the offer has to load instead of asking again"
    );
}

#[test]
fn upload_admission_flushes_before_overflow_and_isolates_oversized_uploads() {
    let mut pending = 0;
    let mut flushed = Vec::new();
    for bytes in [UPLOAD_BATCH_BYTES - 4, 4, 4, UPLOAD_BATCH_BYTES + 4, 4] {
        let before = pending;
        if reserve_upload_bytes(&mut pending, bytes) {
            flushed.push(before);
        }
        assert!(pending <= UPLOAD_BATCH_BYTES.max(bytes));
    }
    assert_eq!(flushed, [UPLOAD_BATCH_BYTES, 4, UPLOAD_BATCH_BYTES + 4]);
    assert_eq!(pending, 4);
}

#[test]
fn texture_upload_budget_includes_small_and_non_square_mips() {
    // The fallback still needs one staging row; a 17x3 texture has mip
    // heights 3, 1, 1, 1, 1, all narrower than one portable copy pitch.
    assert_eq!(material_texture_upload_bytes(1, 1), 256);
    assert_eq!(material_texture_upload_bytes(17, 3), 7 * 256);
}

#[test]
fn project_slot_stays_busy_until_its_failure_is_consumed() {
    let mut session = session(Document::blank());
    session.ui.client_root = "C:/L2".into();
    session.ui.open_path = " 22_22.l2j ".into();
    let settings = session.open_project().expect("the form is complete");
    assert_eq!(settings.region, "22_22");
    assert_eq!(settings.path, "22_22.l2j");
    session.project_started();
    assert!(session.is_busy());
    assert!(session.is_project_loading());
    assert!(session.open_project().is_none(), "one project at a time");
    assert!(session.is_project_loading());
    let request = session.complete(Completion::Project(ProjectOutcome::Error(
        "Unreadable geodata".into(),
    )));
    assert_eq!(request, Request::Nothing);
    assert_eq!(session.ui.status, "Unreadable geodata");
    assert!(!session.is_busy());
    assert!(!session.is_project_loading());
}

#[test]
fn worker_panic_releases_the_loading_slot() {
    let mut session = session(Document::blank());
    session.project_started();
    session.ui.textured_view = true;
    session.complete(Completion::Disconnected("interrompido".into()));
    assert!(!session.is_busy());
    assert!(!session.is_project_loading());
    assert!(!session.ui.textured_view);
}

#[test]
fn a_form_is_checked_before_a_project_is_loaded() {
    let mut session = session(Document::blank());
    assert!(session.open_project().is_none());
    assert_eq!(
        session.ui.status,
        "Informe a pasta raiz do cliente Lineage II."
    );
    session.ui.client_root = "C:/L2".into();
    assert!(session.open_project().is_none());
    assert_eq!(session.ui.status, "Selecione a geodata que será editada.");
    session.ui.open_path = "geo/_conv.dat".into();
    assert!(session.open_project().is_none());
    assert_eq!(session.ui.status, "Nome de geodata inválido: geo/_conv.dat");
    assert_eq!(map_package(&session.ui), None);
    session.ui.open_path = "22_22.l2g".into();
    assert_eq!(map_package(&session.ui).as_deref(), Some("22_22_Classic"));
}

#[test]
fn a_prepared_project_replaces_the_one_before() {
    let mut session = session(Document::blank());
    session.ui.selection = vec![cell(1, 1)];
    session.ui.visible_layer = 9;
    session.project_started();
    let mut document = Document::blank();
    document.force_set_nswe(&[cell(0, 0)], 0, "bloquear");
    let request = session.complete(Completion::Project(ProjectOutcome::Ready(
        PreparedProject {
            document,
            active: ActiveProject {
                client_root: "C:/L2".into(),
                package: "22_22".into(),
            },
            max_layer_count: 1,
            visible_layer: 0,
            package_count: 3,
            scene: false,
            visual_failed: false,
            status: "Projeto carregado.".into(),
        },
    )));
    assert_eq!(request, Request::Refresh);
    assert!(session.ui.selection.is_empty());
    assert_eq!(session.ui.visible_layer, 0);
    assert_eq!(session.package_count, 3);
    assert_eq!(session.document.changed_blocks(), 1);
    let active = session.enable_textured_view().expect("a project is open");
    assert_eq!(active.package, "22_22");
    session.visual_started();
    assert!(session.is_busy() && !session.is_project_loading());
    session.complete(Completion::Visual(Ok(5)));
    assert_eq!(
        session.ui.status,
        "Visualização texturizada carregada: 5 lote(s)."
    );
    assert!(session.enable_textured_view().is_none());
}

#[test]
fn textures_wait_for_a_project() {
    let mut session = session(Document::blank());
    session.ui.textured_view = true;
    assert!(session.wants_scene());
    assert!(session.enable_textured_view().is_none());
    assert_eq!(
        session.ui.status,
        "Abra novamente o projeto para carregar as texturas."
    );
    assert!(!session.ui.textured_view);
    session.loaded = false;
    assert!(session.enable_textured_view().is_none());
    assert_eq!(
        session.ui.status,
        "Carregue um projeto antes de ativar a visualização texturizada."
    );
    session.ui.textured_view = true;
    session.start_refused("Falha ao iniciar carregamento".into(), true);
    assert!(!session.ui.textured_view);
    session.complete(Completion::Visual(Err("sem texturas".into())));
    assert_eq!(session.ui.status, "sem texturas");
}

#[test]
fn a_question_can_be_accepted_or_turned_down() {
    let mut session = session(Document::blank());
    session.ui.client_root = "C:/L2".into();
    session.ui.open_path = "30_30.l2j".into();
    session.ui.map_type = MapType::Normal;
    let settings = session.open_project().unwrap();
    session.project_started();
    session.ui.map_type = MapType::Classic;
    let pending = map_package_or_prompt("30_30", MapType::Normal, false, true)
        .unwrap_err()
        .unwrap();
    session.complete(Completion::Project(ProjectOutcome::Prompt(
        settings, pending,
    )));
    assert_eq!(session.ui.map_type, MapType::Normal);
    assert!(session.ui.pending_flavour.is_some());
    let mut declined = session.ui.clone();
    assert_eq!(session.ui.accept_flavour(), Request::Open);
    assert_eq!(session.ui.map_type, MapType::Classic);
    assert!(session.ui.pending_flavour.is_none());
    declined.decline_flavour();
    assert_eq!(
        declined.status,
        "O mapa 30_30 não existe no cliente informado."
    );
}

#[test]
fn messages_name_what_went_wrong() {
    assert_eq!(invalid_client("C:/x"), "Pasta de cliente inválida: C:/x");
    assert_eq!(open_failure("cheio"), "Falha ao abrir geodata: cheio");
    assert_eq!(
        no_package("22_22", MapType::Classic),
        "O mapa 22_22_Classic não existe no cliente informado."
    );
    assert_eq!(
        load_failure("22_22", "curto"),
        "Falha ao carregar Maps/22_22.unr: curto"
    );
    assert_eq!(
        visual_failure("curto"),
        "Falha ao carregar visualização texturizada: curto"
    );
    assert_eq!(
        project_status("22_22", 12, Some("Sem texturas."), Some("cheio")),
        "Projeto carregado: 22_22 com 12 pacotes de contexto. Sem texturas. Aviso: memória não salva: cheio"
    );
    assert_eq!(
        project_status("22_22", 1, None, None),
        "Projeto carregado: 22_22 com 1 pacotes de contexto."
    );
}

#[test]
fn the_editor_starts_with_the_command_line_and_then_the_memory() {
    let memory = EditorMemory {
        client_root: "C:/L2".into(),
        geodata_path: "20_20.l2j".into(),
        map_type: MapType::Normal,
        theme: EditorTheme::Light,
    };
    let options = EditorOptions {
        input: Some("D:/geo/22_22.l2j".into()),
        client_root: None,
        map_type: None,
    };
    let ui = initial_ui(&options, &memory, false);
    assert_eq!(ui.open_path, "D:/geo/22_22.l2j");
    assert_eq!(ui.client_root, "C:/L2");
    assert_eq!(ui.map_type, MapType::Normal);
    assert_eq!((ui.brush_width, ui.visual_stride, ui.open_context_radius), (1, 1, 16));
    assert_eq!(
        ui.status,
        "Informe o cliente e a geodata para carregar o projeto."
    );
    assert_eq!(welcome_name(&options), "22_22");
    assert_eq!(
        welcome_name(&EditorOptions::new()),
        "Selecione o cliente e a geodata"
    );
}

#[test]
fn a_click_selects_the_brush_on_release() {
    let mut session = session(Document::blank());
    session.ui.brush_width = 2;
    session.ui.brush_height = 3;
    let target = Some(cell(10, 10));
    assert_eq!(
        session.input(InputEvent::LeftPressed, true, FREE, target),
        Request::Nothing
    );
    assert!(session.ui.pending_plain_selection);
    assert_eq!(
        session.input(InputEvent::LeftReleased, true, FREE, target),
        Request::Refresh
    );
    assert_eq!(session.ui.selection.len(), 6);
    assert_eq!(
        session.ui.status,
        "Área 2 × 3 (Centro) selecionada: 6 células."
    );
}

#[test]
fn the_right_button_turns_a_click_into_navigation() {
    let mut session = session(Document::blank());
    let target = Some(cell(10, 10));
    session.input(InputEvent::LeftPressed, true, FREE, target);
    let held = Held { left: true, ..FREE };
    session.input(InputEvent::RightPressed, true, held, target);
    session.input(InputEvent::LeftReleased, true, FREE, target);
    assert!(session.ui.selection.is_empty());
}

#[test]
fn a_click_that_misses_says_so() {
    let mut session = session(Document::blank());
    session.input(InputEvent::LeftPressed, true, FREE, None);
    session.input(InputEvent::LeftReleased, true, FREE, None);
    assert!(session.ui.status.starts_with("Nenhuma célula L2J foi atingida."));
    session.input(InputEvent::LeftPressed, true, CTRL, None);
    assert_eq!(
        session.ui.status,
        "Nenhuma célula L2J foi atingida para a linha."
    );
}

#[test]
fn shift_adds_a_rectangle_or_a_cell() {
    let mut session = session(Document::blank());
    session.ui.selected = cell(1, 1);
    session.input(InputEvent::LeftPressed, true, SHIFT, Some(cell(4, 5)));
    session.input(InputEvent::LeftReleased, true, SHIFT, Some(cell(2, 4)));
    assert_eq!(session.ui.selection.len(), 7, "the current cell stays");
    assert_eq!(session.ui.status, "7 células selecionadas.");
    session.input(InputEvent::LeftPressed, true, SHIFT, Some(cell(1, 1)));
    session.input(InputEvent::LeftReleased, true, SHIFT, Some(cell(1, 1)));
    assert_eq!(session.ui.selection.len(), 6);
    assert!(!session.ui.selection.contains(&cell(1, 1)));
}

#[test]
fn a_rectangle_stops_at_the_limit() {
    let mut session = session(Document::blank());
    session.ui.selection_hidden = true;
    session
        .ui
        .select_rectangle(&session.document, cell(0, 0), cell(300, 300));
    assert_eq!(session.ui.selection.len(), 65_536);
    assert_eq!(
        session.ui.status,
        "Seleção limitada a 65.536 células (65536 selecionadas)."
    );
    assert!(session.is_countable());
}

#[test]
fn control_joins_two_cells() {
    let mut session = session(Document::blank());
    session.input(InputEvent::LeftPressed, true, CTRL, Some(cell(3, 3)));
    assert_eq!(
        session.ui.status,
        "Início da linha: Geo 3,3. Com Ctrl pressionado, clique no fim."
    );
    session.input(InputEvent::LeftPressed, true, CTRL, Some(cell(6, 3)));
    assert_eq!(
        session.ui.status,
        "Faixa contínua selecionada: Geo 3,3 → 6,3 (4 células)."
    );
    assert_eq!(session.ui.line_start, None);
}

#[test]
fn nothing_is_selected_while_a_project_loads() {
    let mut session = session(Document::blank());
    session.project_started();
    session.input(InputEvent::LeftPressed, true, FREE, Some(cell(1, 1)));
    session.input(InputEvent::LeftReleased, true, FREE, Some(cell(1, 1)));
    assert!(session.ui.selection.is_empty());
    assert_eq!(session.apply(EditorAction::ApplyPreset(0)), Request::Nothing);
    assert_eq!(session.document.changed_blocks(), 0);
}

#[test]
fn presets_are_applied_and_undone() {
    let mut session = session(Document::blank());
    session.ui.selection = vec![cell(100, 100)];
    assert_eq!(session.apply(EditorAction::ApplyPreset(5)), Request::Refresh);
    assert_eq!(
        session.ui.status,
        "Preset NSWE 0101 aplicado em 1 células selecionadas."
    );
    assert_eq!(session.document.undo_label(), Some("Preset NSWE 0101"));
    assert_eq!(session.apply(EditorAction::ApplyPreset(5)), Request::Nothing);
    assert_eq!(
        session.ui.status,
        "As células selecionadas já usavam esse preset."
    );
    let undo = InputEvent::KeyPressed {
        key: Key::Z,
        repeat: false,
    };
    assert_eq!(session.input(undo, true, CTRL, None), Request::Refresh);
    assert_eq!(session.ui.status, "Operação desfeita.");
    assert_eq!(session.document.changed_blocks(), 0);
    let redo = InputEvent::KeyPressed {
        key: Key::Y,
        repeat: false,
    };
    assert_eq!(session.input(redo, true, CTRL, None), Request::Refresh);
    assert_eq!(session.document.changed_blocks(), 1);
    assert_eq!(session.apply(EditorAction::RestoreBlock), Request::Nothing);
    session.ui.selected = cell(100, 100);
    assert_eq!(session.apply(EditorAction::RestoreBlock), Request::Refresh);
    assert_eq!(session.document.changed_blocks(), 0);
}

#[test]
fn heights_are_set_and_nudged() {
    let mut session = session(Document::blank());
    session.ui.selected = cell(8, 8);
    assert_eq!(session.apply(EditorAction::SetHeight(60)), Request::Refresh);
    assert_eq!(
        session.ui.status,
        "Altura 56 aplicada: 1 células, 1 bloco(s) Simple convertido(s) em Complex."
    );
    session.ui.keyboard_height_adjust = true;
    let up = InputEvent::KeyPressed {
        key: Key::ArrowUp,
        repeat: true,
    };
    assert_eq!(session.input(up, true, FREE, None), Request::Refresh);
    assert_eq!(session.document.cell(cell(8, 8)).unwrap().height, 64);
    assert_eq!(session.ui.height_input, 64);
    assert_eq!(session.apply(EditorAction::SetHeight(64)), Request::Nothing);
    assert_eq!(
        session.ui.status,
        "As células ativas já estão na altura 64."
    );
    assert_eq!(
        session.apply(EditorAction::SetHeight(40_000)),
        Request::Nothing
    );
    assert!(session.ui.status.starts_with("Altura inválida: "));
}

#[test]
fn blocks_are_converted() {
    let mut session = session(Document::blank());
    let complex = EditorAction::Convert(EditableBlockType::Complex);
    assert_eq!(session.apply(complex), Request::Refresh);
    assert_eq!(session.ui.status, "Conversão aplicada.");
    assert_eq!(session.apply(complex), Request::Nothing);
    assert_eq!(session.ui.status, "O bloco já está nesse formato.");
    assert_eq!(session.block_summary(), "Bloco 0,0 · Complex · alterado");
    assert_eq!(session.expand_label(), "Selecionar as 64 células do bloco");
    session.ui.selected = cell(9_000, 0);
    assert_eq!(session.apply(complex), Request::Nothing);
    assert!(session.ui.status.starts_with("Conversão recusada: "));
    assert_eq!(session.apply(EditorAction::RestoreBlock), Request::Nothing);
    assert!(session.ui.status.starts_with("Falha ao restaurar: "));
}

#[test]
fn edits_need_a_project_and_a_selection() {
    let mut session = session(Document::blank());
    let escape = InputEvent::KeyPressed {
        key: Key::Escape,
        repeat: false,
    };
    assert_eq!(session.input(escape, false, FREE, None), Request::Refresh);
    assert_eq!(session.ui.status, "Seleção removida.");
    assert_eq!(editor_active_selection_count(&session.ui), 0);
    assert_eq!(session.apply(EditorAction::ApplyPreset(0)), Request::Nothing);
    assert_eq!(session.ui.status, "Selecione uma célula antes de editar.");
    assert_eq!(session.apply_preset(0), Request::Nothing);
    assert_eq!(
        session.ui.status,
        "Selecione uma célula antes de aplicar um preset."
    );
    assert_eq!(session.apply_height(0), Request::Nothing);
    assert_eq!(
        session.ui.status,
        "Selecione uma célula antes de alterar a altura."
    );
    session.loaded = false;
    assert_eq!(session.apply(EditorAction::Save), Request::Nothing);
    assert_eq!(
        session.ui.status,
        "Carregue o cliente e a geodata antes de editar."
    );
    assert_eq!(session.apply(EditorAction::OpenProject), Request::Open);
    assert_eq!(session.apply(EditorAction::Nothing), Request::Nothing);
}

#[test]
fn a_block_is_expanded_into_its_cells() {
    let mut session = session(Document::blank());
    session.ui.selected = cell(100, 50);
    assert_eq!(session.expand_label(), "Expandir bloco Simple em 64 células");
    let count = session.ui.select_current_block_cells(&session.document);
    assert_eq!(count, 64);
    assert_eq!(session.ui.selected, cell(96, 48));
    assert_eq!(
        session.ui.status,
        "Bloco 12,6 expandido: 64 células selecionadas na camada L0. Escolha um preset de passabilidade para aplicar."
    );
    session.ui.visible_layer = 2;
    assert_eq!(session.ui.select_current_block_cells(&session.document), 0);
    assert_eq!(
        session.ui.status,
        "O bloco 12,6 não possui a camada L2 para selecionar."
    );
}

#[test]
fn a_save_is_asked_for_and_reported() {
    let mut session = session(Document::blank());
    assert_eq!(session.save_opened_file(), None);
    assert_eq!(
        session.ui.status,
        "A geodata aberta não possui um arquivo de origem para salvar."
    );
    let mut bytes = Vec::with_capacity(BLOCK_COUNT * 3);
    for _ in 0..BLOCK_COUNT {
        bytes.extend([0, 0, 0]);
    }
    session.document = Document::open("geo/22_22.l2j", bytes).unwrap();
    session.apply(EditorAction::ApplyPreset(0));
    let path = session.save_opened_file().unwrap();
    assert_eq!(path, "geo/22_22.l2j");
    let plan = session.document.save_as(&path, "geo", true).unwrap();
    session.saved(&plan.summary);
    let lines: Vec<&str> = session.ui.status.lines().collect();
    assert_eq!(lines[0], "Salvo com sucesso: 22_22.l2j");
    assert!(lines[1].starts_with("1 blocos, 1 conversões, "));
    session.ui.warn_memory("cheio");
    assert!(session.ui.status.ends_with(" Aviso: memória não salva: cheio"));
    session.save_failed("disco cheio");
    assert_eq!(session.ui.status, "Falha ao salvar: disco cheio");
    session.loaded = false;
    assert_eq!(session.save_opened_file(), None);
    assert_eq!(session.ui.status, "Carregue um projeto antes de salvar.");
}

#[test]
fn memory_is_trimmed() {
    let ui = EditorUi {
        client_root: "  C:/L2 ".into(),
        open_path: "\t22_22.l2j\n".into(),
        ..EditorUi::default()
    };
    let memory = ui.memory();
    assert_eq!(memory.client_root, "C:/L2");
    assert_eq!(memory.geodata_path, "22_22.l2j");
}

#[test]
fn layers_stay_among_those_of_the_document() {
    let mut ui = EditorUi {
        visible_layer: 7,
        ..EditorUi::default()
    };
    ui.clamp_layer(3);
    assert_eq!((ui.visible_layer, ui.selected.layer), (2, 2));
    ui.height_input_address = Some(cell(0, 0));
    ui.choose_layer(1);
    assert_eq!((ui.visible_layer, ui.selected.layer), (1, 1));
    assert_eq!(ui.height_input_address, None);
    ui.visible_layer = 9;
    reset_selection(&mut ui, 1);
    assert_eq!(ui.visible_layer, 0);
    ui.toggle_theme();
    assert_eq!(ui.theme, EditorTheme::Light);
    assert!(ui.status_text().starts_with("Pronto."));
    ui.brush_width = 3;
    ui.brush_height = 4;
    assert_eq!(
        ui.brush_summary(),
        "3 × 4 = 12 células. A área é distribuída ao redor da célula clicada."
    );
}

#[test]
fn masks_are_explained() {
    assert_eq!(NSWE_PRESET_MASKS[0], 15);
    assert_eq!(
        nswe_preset_tooltip(0b0010),
        "Aplicar preset NSWE 0010\nN: bloqueado · S: bloqueado · W: aberto · E: bloqueado"
    );
    assert_eq!(
        cell_tooltip(0b0001_1111),
        "NSWE 1111 — N aberto  S aberto  W aberto  E aberto"
    );
}

#[test]
fn messages_are_coloured_by_their_words() {
    assert_eq!(editor_status_tone("Falha ao salvar"), StatusTone::Error);
    assert_eq!(editor_status_tone("Conversão recusada: x"), StatusTone::Error);
    assert_eq!(editor_status_tone("Altura inválida: x"), StatusTone::Error);
    assert_eq!(editor_status_tone("Salvo com sucesso"), StatusTone::Success);
    assert_eq!(editor_status_tone("Projeto carregado: x"), StatusTone::Success);
    assert_eq!(editor_status_tone("NSWE alterado"), StatusTone::Success);
    assert_eq!(editor_status_tone("Seleção removida."), StatusTone::Muted);
    assert_eq!(editor_status_tone(""), StatusTone::Muted);
}

#[test]
fn both_buttons_navigate_until_both_are_released() {
    let mut input = CameraInput::new();
    input.handle(ButtonEvent::RightPressed { captured: true });
    assert_eq!(input.motion(true), Some(Motion::Rotate));
    assert_eq!(input.motion(false), None);
    input.handle(ButtonEvent::LeftPressed);
    assert_eq!(input.motion(true), Some(Motion::Elevate));
    input.handle(ButtonEvent::RightReleased);
    assert_eq!(input.motion(true), None);
    assert!(input.uses_left_for_vertical_navigation());
    input.handle(ButtonEvent::LeftReleased);
    assert!(!input.uses_left_for_vertical_navigation());
    input.handle(ButtonEvent::RightPressed { captured: false });
    input.handle(ButtonEvent::FocusLost);
    assert_eq!(input, CameraInput::new());
}

#[test]
fn a_scene_draws_what_can_be_seen_with_shared_pipelines() {
    let key = |blend| TexturedPipelineKey {
        blend,
        depth_write: true,
        depth_test: true,
    };
    let batch = |index_count, blend| BatchInfo {
        index_count,
        key: key(blend),
    };
    let plan = plan_scene(&vec![
        batch(3, VisualBlend::Opaque),
        batch(0, VisualBlend::Opaque),
        batch(3, VisualBlend::Invisible),
        batch(6, VisualBlend::Alpha),
        batch(3, VisualBlend::Opaque),
    ]);
    let sources: Vec<usize> = plan.batches.iter().map(|batch| batch.source).collect();
    let pipelines: Vec<usize> = plan.batches.iter().map(|batch| batch.pipeline).collect();
    assert_eq!(sources, [0, 3, 4]);
    assert_eq!(pipelines, [0, 1, 0]);
    assert_eq!(
        plan.pipelines,
        [key(VisualBlend::Opaque), key(VisualBlend::Alpha)]
    );
    assert_eq!(plan.opaque, [0, 2]);
    assert_eq!(plan.blended, [1]);
}

#[test]
fn blend_modes_have_their_factors() {
    assert_eq!(material_blend(VisualBlend::Opaque), None);
    assert_eq!(material_blend(VisualBlend::Invisible), None);
    assert_eq!(
        material_blend(VisualBlend::Alpha),
        Some((BlendFactor::SrcAlpha, BlendFactor::OneMinusSrcAlpha))
    );
    assert_eq!(
        material_blend(VisualBlend::Modulate),
        Some((BlendFactor::Dst, BlendFactor::Src))
    );
    assert_eq!(
        material_blend(VisualBlend::Darken),
        Some((BlendFactor::Zero, BlendFactor::OneMinusSrc))
    );
}
