//! Opening a project: a client and a geodata file of one of its maps.
//!
//! Reading and preparing a project is work for the background. A session admits
//! one piece of it at a time, and takes up what came of it.

use vstd::prelude::*;
use vstd::string::StringExecFns;

use crate::editor;
use crate::editor::{geodata_region, EditorMemory, EditorOptions, MapType};
use crate::l2j::document::Document;
use crate::l2j::block::LayerAddress;
use crate::path;
use crate::picking::{push_index, Request};
use crate::session::{ActiveModel, ActiveProject, Session, SessionModel, Slot};
use crate::text;
use crate::text::{chars_of, string_of, trim_chars};
use crate::ui::{EditorUi, FlavourModel, PendingFlavour, UiModel};

verus! {

/// What a client ships for a region.
#[derive(Debug)]
pub enum PackageAvailability {
    /// The package of the selected flavour is there.
    Selected(String),
    /// Only that of the other flavour is there.
    OnlyOther(MapType, String),
    Neither,
}

/// What a [`PackageAvailability`] says.
#[verifier::ext_equal]
pub enum AvailabilityModel {
    Selected(Seq<char>),
    OnlyOther(MapType, Seq<char>),
    Neither,
}

impl View for PackageAvailability {
    type V = AvailabilityModel;

    open spec fn view(&self) -> AvailabilityModel {
        match self {
            PackageAvailability::Selected(name) => AvailabilityModel::Selected(name@),
            PackageAvailability::OnlyOther(map_type, name) => AvailabilityModel::OnlyOther(
                *map_type,
                name@,
            ),
            PackageAvailability::Neither => AvailabilityModel::Neither,
        }
    }
}

pub open spec fn availability(
    region: Seq<char>,
    map_type: MapType,
    has_selected: bool,
    has_other: bool,
) -> AvailabilityModel {
    let other = map_type.counterpart();
    if has_selected {
        AvailabilityModel::Selected(map_type.package_of(region))
    } else if has_other {
        AvailabilityModel::OnlyOther(other, other.package_of(region))
    } else {
        AvailabilityModel::Neither
    }
}

/// What to load for a region, given which of its packages the client has: that
/// of the selected flavour, and that of the other one.
pub fn map_package_availability(
    region: &str,
    map_type: MapType,
    has_selected: bool,
    has_other: bool,
) -> (result: PackageAvailability)
    ensures
        result@ == availability(region@, map_type, has_selected, has_other),
{
    if has_selected {
        return PackageAvailability::Selected(map_type.package_name(region));
    }
    let other = map_type.other();
    if has_other {
        return PackageAvailability::OnlyOther(other, other.package_name(region));
    }
    PackageAvailability::Neither
}

/// The package to load right away, or the question to put before, if there is
/// anything to ask.
pub fn map_package_or_prompt(
    region: &str,
    map_type: MapType,
    has_selected: bool,
    has_other: bool,
) -> (result: std::result::Result<String, Option<PendingFlavour>>)
    ensures
        match (result, availability(region@, map_type, has_selected, has_other)) {
            (Ok(package), AvailabilityModel::Selected(name)) => package@ == name,
            (Err(None), AvailabilityModel::Neither) => true,
            (Err(Some(pending)), AvailabilityModel::OnlyOther(available_type, available)) => pending@
                == (FlavourModel {
                missing: map_type.package_of(region@),
                available,
                available_type,
            }),
            _ => false,
        },
{
    match map_package_availability(region, map_type, has_selected, has_other) {
        PackageAvailability::Selected(package) => Ok(package),
        PackageAvailability::Neither => Err(None),
        PackageAvailability::OnlyOther(available_type, available) => Err(
            Some(
                PendingFlavour {
                    missing: map_type.package_name(region),
                    available,
                    available_type,
                },
            ),
        ),
    }
}

/// Accepting the other flavour of a region settles the question: its package
/// is the one to load.
pub proof fn accepted_flavour_is_loaded(region: Seq<char>, map_type: MapType)
    ensures
        availability(region, map_type, false, true) matches AvailabilityModel::OnlyOther(
            other,
            package,
        ) && availability(region, other, true, false) == AvailabilityModel::Selected(package),
        map_type.counterpart().counterpart() == map_type,
{
}

/// What a project is loaded with.
pub struct ProjectSettings {
    pub client_root: String,
    pub path: String,
    pub region: String,
    pub map_type: MapType,
    pub ui: EditorUi,
}

/// What [`ProjectSettings`] say.
#[verifier::ext_equal]
pub struct SettingsModel {
    pub client_root: Seq<char>,
    pub path: Seq<char>,
    pub region: Seq<char>,
    pub map_type: MapType,
    pub ui: UiModel,
}

impl View for ProjectSettings {
    type V = SettingsModel;

    open spec fn view(&self) -> SettingsModel {
        SettingsModel {
            client_root: self.client_root@,
            path: self.path@,
            region: self.region@,
            map_type: self.map_type,
            ui: self.ui@,
        }
    }
}

/// What opening a project with a form comes to: settings, or what is wrong.
pub open spec fn checked_form(ui: UiModel) -> std::result::Result<SettingsModel, Seq<char>> {
    let client_root = text::trimmed(ui.client_root);
    let path = text::trimmed(ui.open_path);
    if client_root.len() == 0 {
        Err("Informe a pasta raiz do cliente Lineage II."@)
    } else if path.len() == 0 {
        Err("Selecione a geodata que será editada."@)
    } else {
        match editor::region_of(path) {
            None => Err("Nome de geodata inválido: "@ + path),
            Some(region) => Ok(
                SettingsModel { client_root, path, region, map_type: ui.map_type, ui },
            ),
        }
    }
}

fn trimmed_text(value: &str) -> (result: String)
    ensures
        result@ == text::trimmed(value@),
{
    let chars = chars_of(value);
    string_of(trim_chars(chars.as_slice()))
}

fn copy_flavour(flavour: &Option<PendingFlavour>) -> (result: Option<PendingFlavour>)
    ensures
        match (*flavour, result) {
            (Some(flavour), Some(same)) => flavour@ == same@,
            (None, None) => true,
            _ => false,
        },
{
    match flavour {
        None => None,
        Some(flavour) => Some(
            PendingFlavour {
                missing: flavour.missing.clone(),
                available: flavour.available.clone(),
                available_type: flavour.available_type,
            },
        ),
    }
}

/// A copy of the settings and the selection.
pub fn copy_ui(ui: &EditorUi) -> (result: EditorUi)
    ensures
        result@ == ui@,
{
    let result = EditorUi {
        open_path: ui.open_path.clone(),
        selection_hidden: ui.selection_hidden,
        client_root: ui.client_root.clone(),
        map_type: ui.map_type,
        theme: ui.theme,
        selected: ui.selected,
        selection: vstd::slice::slice_to_vec(ui.selection.as_slice()),
        rectangle_start: ui.rectangle_start,
        line_start: ui.line_start,
        pending_plain_selection: ui.pending_plain_selection,
        visible_layer: ui.visible_layer,
        brush_width: ui.brush_width,
        brush_height: ui.brush_height,
        brush_anchor: ui.brush_anchor,
        visual_stride: ui.visual_stride,
        show_nswe_icons: ui.show_nswe_icons,
        textured_view: ui.textured_view,
        show_selected_layer_only: ui.show_selected_layer_only,
        show_all_open_cells: ui.show_all_open_cells,
        hide_fully_open_blocks: ui.hide_fully_open_blocks,
        hide_all_blocks: ui.hide_all_blocks,
        pending_flavour: copy_flavour(&ui.pending_flavour),
        open_context_radius: ui.open_context_radius,
        height_input: ui.height_input,
        height_input_address: ui.height_input_address,
        keyboard_height_adjust: ui.keyboard_height_adjust,
        status: ui.status.clone(),
    };
    assert(result@ == ui@);
    result
}

fn settings_in(ui: &EditorUi) -> (result: std::result::Result<ProjectSettings, String>)
    ensures
        match (result, checked_form(ui@)) {
            (Ok(settings), Ok(expected)) => settings@ == expected,
            (Err(message), Err(expected)) => message@ == expected,
            _ => false,
        },
{
    let client_root = trimmed_text(ui.client_root.as_str());
    if client_root.as_str().is_empty() {
        return Err("Informe a pasta raiz do cliente Lineage II.".to_owned());
    }
    let path = trimmed_text(ui.open_path.as_str());
    if path.as_str().is_empty() {
        return Err("Selecione a geodata que será editada.".to_owned());
    }
    match geodata_region(path.as_str()) {
        None => {
            let mut message = "Nome de geodata inválido: ".to_owned();
            message.append(path.as_str());
            Err(message)
        },
        Some(region) => Ok(
            ProjectSettings {
                client_root,
                path,
                region,
                map_type: ui.map_type,
                ui: copy_ui(ui),
            },
        ),
    }
}

/// The package that backs the geodata of the form.
pub open spec fn package_of_form(ui: UiModel) -> Option<Seq<char>> {
    match editor::region_of(text::trimmed(ui.open_path)) {
        Some(region) => Some(ui.map_type.package_of(region)),
        None => None,
    }
}

/// The package that backs the geodata of the form.
pub fn map_package(ui: &EditorUi) -> (package: Option<String>)
    ensures
        match package {
            Some(package) => package_of_form(ui@) == Some(package@),
            None => package_of_form(ui@) is None,
        },
{
    let path = trimmed_text(ui.open_path.as_str());
    match geodata_region(path.as_str()) {
        Some(region) => Some(ui.map_type.package_name(region.as_str())),
        None => None,
    }
}

/// What the editor starts with: what the command line says, else what was
/// remembered.
pub open spec fn first_ui(
    options: editor::OptionsModel,
    memory: editor::MemoryModel,
    loaded: bool,
) -> UiModel {
    UiModel {
        open_path: match options.input {
            Some(path) => path,
            None => memory.geodata_path,
        },
        client_root: match options.client_root {
            Some(root) => root,
            None => memory.client_root,
        },
        map_type: match options.map_type {
            Some(map_type) => map_type,
            None => memory.map_type,
        },
        theme: memory.theme,
        brush_width: 1,
        brush_height: 1,
        visual_stride: 1,
        show_nswe_icons: true,
        open_context_radius: 16,
        status: if loaded {
            "Projeto carregado com o contexto de colisão do cliente."@
        } else {
            "Informe o cliente e a geodata para carregar o projeto."@
        },
        ..UiModel::empty()
    }
}

/// The settings that the editor starts with.
pub fn initial_ui(options: &EditorOptions, memory: &EditorMemory, loaded: bool) -> (ui: EditorUi)
    ensures
        ui@ == first_ui(options@, memory@, loaded),
{
    let mut ui = EditorUi::default();
    ui.open_path = match &options.input {
        Some(path) => path.clone(),
        None => memory.geodata_path.clone(),
    };
    ui.client_root = match &options.client_root {
        Some(root) => root.clone(),
        None => memory.client_root.clone(),
    };
    ui.map_type = match options.map_type {
        Some(map_type) => map_type,
        None => memory.map_type,
    };
    ui.theme = memory.theme;
    ui.brush_width = 1;
    ui.brush_height = 1;
    ui.visual_stride = 1;
    ui.show_nswe_icons = true;
    ui.open_context_radius = 16;
    ui.status = if loaded {
        "Projeto carregado com o contexto de colisão do cliente.".to_owned()
    } else {
        "Informe o cliente e a geodata para carregar o projeto.".to_owned()
    };
    assert(ui@ == first_ui(options@, memory@, loaded));
    ui
}

/// What stands for a map while there is none.
pub open spec fn welcome_of(input: Option<Seq<char>>) -> Seq<char> {
    match input {
        None => "Selecione o cliente e a geodata"@,
        Some(path) => match path::file_name_of(path) {
            None => "Selecione o cliente e a geodata"@,
            Some(name) => path::stem_of(name),
        },
    }
}

/// The name shown while there is no map.
pub fn welcome_name(options: &EditorOptions) -> (name: String)
    ensures
        name@ == welcome_of(options@.input),
{
    match &options.input {
        None => "Selecione o cliente e a geodata".to_owned(),
        Some(path) => match path::file_name(path.as_str()) {
            None => "Selecione o cliente e a geodata".to_owned(),
            Some(name) => string_of(path::stem(name.as_slice()).as_slice()),
        },
    }
}

/// Why a client directory is refused.
pub fn invalid_client(client_root: &str) -> (message: String)
    ensures
        message@ == "Pasta de cliente inválida: "@ + client_root@,
{
    let mut message = "Pasta de cliente inválida: ".to_owned();
    message.append(client_root);
    message
}

/// What is said when a geodata file cannot be opened.
pub fn open_failure(error: &str) -> (message: String)
    ensures
        message@ == "Falha ao abrir geodata: "@ + error@,
{
    let mut message = "Falha ao abrir geodata: ".to_owned();
    message.append(error);
    message
}

/// What is said when the client has no package for a region.
pub fn no_package(region: &str, map_type: MapType) -> (message: String)
    ensures
        message@ == "O mapa "@ + map_type.package_of(region@)
            + " não existe no cliente informado."@,
{
    let mut message = "O mapa ".to_owned();
    message.append(map_type.package_name(region).as_str());
    message.append(" não existe no cliente informado.");
    message
}

/// What is said when a map cannot be loaded.
pub fn load_failure(package: &str, error: &str) -> (message: String)
    ensures
        message@ == "Falha ao carregar Maps/"@ + package@ + ".unr: "@ + error@,
{
    let mut message = "Falha ao carregar Maps/".to_owned();
    message.append(package);
    message.append(".unr: ");
    message.append(error);
    message
}

/// What is said when a textured scene cannot be loaded.
pub fn visual_failure(error: &str) -> (message: String)
    ensures
        message@ == "Falha ao carregar visualização texturizada: "@ + error@,
{
    let mut message = "Falha ao carregar visualização texturizada: ".to_owned();
    message.append(error);
    message
}

pub open spec fn added_message(before: Seq<char>, addition: Option<Seq<char>>) -> Seq<char> {
    match addition {
        Some(text) => " "@ + before + text,
        None => Seq::empty(),
    }
}

pub open spec fn text_of(message: Option<&str>) -> Option<Seq<char>> {
    match message {
        Some(message) => Some(message@),
        None => None,
    }
}

/// What is said when a project was loaded, with what went wrong beside it.
pub fn project_status(
    map: &str,
    packages: usize,
    visual_error: Option<&str>,
    memory_error: Option<&str>,
) -> (message: String)
    ensures
        message@ == "Projeto carregado: "@ + map@ + " com "@ + text::decimal(packages as nat)
            + " pacotes de contexto."@ + added_message(Seq::empty(), text_of(visual_error))
            + added_message("Aviso: memória não salva: "@, text_of(memory_error)),
{
    let mut message = "Projeto carregado: ".to_owned();
    message.append(map);
    message.append(" com ");
    push_index(&mut message, packages);
    message.append(" pacotes de contexto.");
    let ghost first = message@;
    if let Some(error) = visual_error {
        message.append(" ");
        message.append(error);
    }
    assert(message@ =~= first + added_message(Seq::empty(), text_of(visual_error)));
    let ghost second = message@;
    if let Some(error) = memory_error {
        message.append(" ");
        message.append("Aviso: memória não salva: ");
        message.append(error);
    }
    assert(message@ =~= second + added_message(
        "Aviso: memória não salva: "@,
        text_of(memory_error),
    ));
    message
}

impl UiModel {
    /// With nothing selected in a document that was just opened.
    pub open spec fn reset(self, visible_layer: usize) -> UiModel {
        UiModel {
            visible_layer,
            selected: LayerAddress { layer: visible_layer, ..self.selected },
            selection: Seq::empty(),
            selection_hidden: false,
            rectangle_start: None,
            line_start: None,
            pending_plain_selection: false,
            height_input_address: None,
            ..self
        }
    }
}

/// The layer to show of a document with a number of layers.
pub open spec fn usable_layer(wanted: int, layers: int) -> int {
    if wanted < layers {
        wanted
    } else {
        layers - 1
    }
}

/// Takes the selection back for a document with a number of layers.
pub fn reset_selection(ui: &mut EditorUi, max_layer_count: usize)
    requires
        1 <= max_layer_count,
    ensures
        final(ui)@ == old(ui)@.reset(
            usable_layer(old(ui)@.visible_layer as int, max_layer_count as int) as usize,
        ),
{
    let layer: usize = if ui.visible_layer < max_layer_count {
        ui.visible_layer
    } else {
        max_layer_count - 1
    };
    clear_selection(ui, layer);
}

fn clear_selection(ui: &mut EditorUi, layer: usize)
    ensures
        final(ui)@ == old(ui)@.reset(layer),
{
    ui.visible_layer = layer;
    ui.selected.layer = layer;
    ui.selection = Vec::new();
    ui.selection_hidden = false;
    ui.rectangle_start = None;
    ui.line_start = None;
    ui.pending_plain_selection = false;
    ui.height_input_address = None;
    assert(ui@ == old(ui)@.reset(layer));
}

/// A project that was read and prepared.
pub struct PreparedProject {
    pub document: Document,
    pub active: ActiveProject,
    pub max_layer_count: usize,
    pub visible_layer: usize,
    pub package_count: usize,
    /// Whether its textured scene is at hand.
    pub scene: bool,
    pub visual_failed: bool,
    pub status: String,
}

/// What came of opening a project.
pub enum ProjectOutcome {
    Ready(PreparedProject),
    Prompt(ProjectSettings, PendingFlavour),
    Error(String),
}

/// What came of work in the background.
pub enum Completion {
    Project(ProjectOutcome),
    /// A textured scene of a number of batches, or why there is none.
    Visual(std::result::Result<usize, String>),
    /// The work broke off.
    Disconnected(String),
}

impl SessionModel {
    /// With a project that was prepared.
    pub open spec fn with_project(self, project: PreparedProject) -> SessionModel {
        SessionModel {
            document: project.document@,
            ui: UiModel {
                pending_flavour: None,
                status: project.status@,
                textured_view: self.ui.textured_view && !project.visual_failed,
                ..self.ui.reset(project.visible_layer)
            },
            loaded: true,
            has_context: true,
            package_count: project.package_count,
            max_layer_count: project.max_layer_count,
            slot: Slot::Idle,
            active: Some(project.active@),
            scene: project.scene,
        }
    }

    /// With a question that has to be answered first. The form goes back to
    /// the request that it is about.
    pub open spec fn with_prompt(
        self,
        settings: SettingsModel,
        pending: FlavourModel,
    ) -> SessionModel {
        SessionModel {
            ui: UiModel {
                client_root: settings.client_root,
                open_path: settings.path,
                map_type: settings.map_type,
                status: "O mapa "@ + pending.missing + " não existe, mas o "@ + pending.available
                    + " existe. Quer usar ele?"@,
                pending_flavour: Some(pending),
                ..self.ui
            },
            slot: Slot::Idle,
            ..self
        }
    }

    /// With the place for background work free, and a message. The textured
    /// view may be switched off.
    pub open spec fn relieved(self, message: Seq<char>, textured_view: bool) -> SessionModel {
        SessionModel {
            ui: UiModel { status: message, textured_view, ..self.ui },
            slot: Slot::Idle,
            ..self
        }
    }

    pub open spec fn completed(self, completion: Completion) -> SessionModel {
        let shown = self.ui.textured_view;
        match completion {
            Completion::Project(ProjectOutcome::Ready(project)) => self.with_project(project),
            Completion::Project(ProjectOutcome::Prompt(settings, pending)) => self.with_prompt(
                settings@,
                pending@,
            ),
            Completion::Project(ProjectOutcome::Error(error)) => self.relieved(error@, shown),
            Completion::Visual(Ok(batches)) => SessionModel {
                scene: true,
                ..self.relieved(
                    "Visualização texturizada carregada: "@ + text::decimal(batches as nat)
                        + " lote(s)."@,
                    shown,
                )
            },
            Completion::Visual(Err(error)) => self.relieved(error@, false),
            Completion::Disconnected(error) => self.relieved(error@, shown && self.scene),
        }
    }

    /// With a request for a textured scene taken up or turned down. The place
    /// for background work is the caller's to fill.
    pub open spec fn texture_request(self) -> (SessionModel, Option<ActiveModel>) {
        if self.slot != Slot::Idle || self.scene {
            (self, None)
        } else if !self.ready() {
            (
                SessionModel {
                    ui: UiModel {
                        status: "Carregue um projeto antes de ativar a visualização texturizada."@,
                        textured_view: false,
                        ..self.ui
                    },
                    ..self
                },
                None,
            )
        } else if self.active is None {
            (
                SessionModel {
                    ui: UiModel {
                        status: "Abra novamente o projeto para carregar as texturas."@,
                        textured_view: false,
                        ..self.ui
                    },
                    ..self
                },
                None,
            )
        } else {
            (self, self.active)
        }
    }
}

/// How a message and the textured view are set.
pub open spec fn toned(ui: UiModel, message: Seq<char>, textured_view: bool) -> UiModel {
    UiModel { status: message, textured_view, ..ui }
}

fn set_view(ui: &mut EditorUi, message: String, textured_view: bool)
    ensures
        final(ui)@ == toned(old(ui)@, message@, textured_view),
{
    ui.status = message;
    ui.textured_view = textured_view;
    assert(ui@ == toned(old(ui)@, message@, textured_view));
}

fn install(ui: &mut EditorUi, layer: usize, message: String, visual_failed: bool)
    ensures
        final(ui)@ == (UiModel {
            pending_flavour: None,
            status: message@,
            textured_view: old(ui)@.textured_view && !visual_failed,
            ..old(ui)@.reset(layer)
        }),
{
    clear_selection(ui, layer);
    ui.pending_flavour = None;
    ui.status = message;
    if visual_failed {
        ui.textured_view = false;
    }
    assert(ui@ == (UiModel {
        pending_flavour: None,
        status: message@,
        textured_view: old(ui)@.textured_view && !visual_failed,
        ..old(ui)@.reset(layer)
    }));
}

fn ask(ui: &mut EditorUi, settings: ProjectSettings, pending: PendingFlavour)
    ensures
        final(ui)@ == (UiModel {
            client_root: settings@.client_root,
            open_path: settings@.path,
            map_type: settings@.map_type,
            status: "O mapa "@ + pending@.missing + " não existe, mas o "@ + pending@.available
                + " existe. Quer usar ele?"@,
            pending_flavour: Some(pending@),
            ..old(ui)@
        }),
{
    let question = pending.question();
    let ghost model = pending@;
    ui.client_root = settings.client_root;
    ui.open_path = settings.path;
    ui.map_type = settings.map_type;
    ui.status = question;
    ui.pending_flavour = Some(pending);
    assert(ui@ == (UiModel {
        client_root: settings@.client_root,
        open_path: settings@.path,
        map_type: settings@.map_type,
        status: question@,
        pending_flavour: Some(model),
        ..old(ui)@
    }));
}

fn begin(ui: &mut EditorUi)
    ensures
        final(ui)@ == (UiModel {
            pending_flavour: None,
            status: "Carregando projeto em segundo plano…"@,
            ..old(ui)@
        }),
{
    ui.pending_flavour = None;
    ui.status = "Carregando projeto em segundo plano…".to_owned();
    assert(ui@ == (UiModel {
        pending_flavour: None,
        status: "Carregando projeto em segundo plano…"@,
        ..old(ui)@
    }));
}

impl Session {
    /// Whether work runs in the background.
    pub fn is_busy(&self) -> (busy: bool)
        ensures
            busy == (self@.slot != Slot::Idle),
    {
        self.slot != Slot::Idle
    }

    /// Whether a project is being loaded.
    pub fn is_project_loading(&self) -> (loading: bool)
        ensures
            loading == (self@.slot == Slot::Project),
    {
        self.slot == Slot::Project
    }

    /// Takes the form up for a project to load, or says what is wrong with it.
    /// While work runs in the background, nothing happens.
    pub fn open_project(&mut self) -> (settings: Option<ProjectSettings>)
        requires
            old(self).well_formed(),
        ensures
            final(self).well_formed(),
            match (checked_form(old(self)@.ui), settings) {
                (Ok(expected), Some(settings)) => {
                    &&& old(self)@.slot == Slot::Idle
                    &&& settings@ == expected
                    &&& final(self)@ == old(self)@
                },
                (_, Some(_)) => false,
                (Ok(_), None) => old(self)@.slot != Slot::Idle && final(self)@ == old(self)@,
                (Err(message), None) => final(self)@ == if old(self)@.slot != Slot::Idle {
                    old(self)@
                } else {
                    old(self)@.say(message)
                },
            },
    {
        if self.slot != Slot::Idle {
            return None;
        }
        match settings_in(&self.ui) {
            Err(message) => {
                self.report(message);
                None
            },
            Ok(settings) => Some(settings),
        }
    }

    /// Notes that a project is being loaded.
    pub fn project_started(&mut self)
        requires
            old(self).well_formed(),
        ensures
            final(self).well_formed(),
            final(self)@ == (SessionModel {
                ui: UiModel {
                    pending_flavour: None,
                    status: "Carregando projeto em segundo plano…"@,
                    ..old(self)@.ui
                },
                slot: Slot::Project,
                ..old(self)@
            }),
    {
        self.slot = Slot::Project;
        begin(&mut self.ui);
        assert(self.document == old(self).document);
        assert(self.active == old(self).active);
    }

    /// Notes that background work could not be started.
    pub fn start_refused(&mut self, message: String, visual: bool)
        requires
            old(self).well_formed(),
        ensures
            final(self).well_formed(),
            final(self)@ == (SessionModel {
                ui: toned(old(self)@.ui, message@, old(self)@.ui.textured_view && !visual),
                ..old(self)@
            }),
    {
        let shown = self.ui.textured_view && !visual;
        set_view(&mut self.ui, message, shown);
        assert(self.document == old(self).document);
        assert(self.active == old(self).active);
    }

    /// Takes up a request for a textured scene: what to load it from, unless
    /// there is nothing to load.
    pub fn enable_textured_view(&mut self) -> (active: Option<ActiveProject>)
        requires
            old(self).well_formed(),
        ensures
            final(self).well_formed(),
            final(self)@ == old(self)@.texture_request().0,
            match (active, old(self)@.texture_request().1) {
                (Some(active), Some(expected)) => active@ == expected,
                (None, None) => true,
                _ => false,
            },
    {
        if self.slot != Slot::Idle || self.scene {
            return None;
        }
        if !self.loaded || !self.has_context {
            let message =
                "Carregue um projeto antes de ativar a visualização texturizada.".to_owned();
            set_view(&mut self.ui, message, false);
            assert(self.document == old(self).document);
            assert(self.active == old(self).active);
            return None;
        }
        match &self.active {
            Some(active) => {
                let copy = ActiveProject {
                    client_root: active.client_root.clone(),
                    package: active.package.clone(),
                };
                assert(copy@ == active@);
                Some(copy)
            },
            None => {
                let message = "Abra novamente o projeto para carregar as texturas.".to_owned();
                set_view(&mut self.ui, message, false);
                assert(self.document == old(self).document);
                assert(self.active == old(self).active);
                None
            },
        }
    }

    /// Notes that a textured scene is being loaded.
    pub fn visual_started(&mut self)
        requires
            old(self).well_formed(),
        ensures
            final(self).well_formed(),
            final(self)@ == (SessionModel {
                ui: old(self)@.ui.say("Carregando visualização texturizada em segundo plano…"@),
                slot: Slot::Visual,
                ..old(self)@
            }),
    {
        self.slot = Slot::Visual;
        self.ui.show("Carregando visualização texturizada em segundo plano…");
        assert(self.document == old(self).document);
        assert(self.active == old(self).active);
    }

    /// Whether a textured scene is to be shown and is not at hand.
    pub fn wants_scene(&self) -> (wanted: bool)
        ensures
            wanted == (self@.ui.textured_view && !self@.scene),
    {
        self.ui.textured_view && !self.scene
    }

    fn adopt(&mut self, project: PreparedProject)
        requires
            project.document.well_formed(),
        ensures
            final(self).well_formed(),
            final(self)@ == old(self)@.with_project(project),
    {
        self.document = project.document;
        install(&mut self.ui, project.visible_layer, project.status, project.visual_failed);
        self.loaded = true;
        self.has_context = true;
        self.package_count = project.package_count;
        self.max_layer_count = project.max_layer_count;
        self.slot = Slot::Idle;
        self.active = Some(project.active);
        self.scene = project.scene;
        assert(self@ == old(self)@.with_project(project));
    }

    fn relieve(&mut self, message: String, textured_view: bool)
        requires
            old(self).well_formed(),
        ensures
            final(self).well_formed(),
            final(self)@ == old(self)@.relieved(message@, textured_view),
    {
        self.slot = Slot::Idle;
        set_view(&mut self.ui, message, textured_view);
        assert(self.document == old(self).document);
        assert(self.active == old(self).active);
    }

    /// Takes up what came of the work in the background. A project that was
    /// prepared asks for the overlay to be drawn.
    pub fn complete(&mut self, completion: Completion) -> (request: Request)
        requires
            old(self).well_formed(),
            completion matches Completion::Project(ProjectOutcome::Ready(project))
                ==> project.document.well_formed(),
        ensures
            final(self).well_formed(),
            final(self)@ == old(self)@.completed(completion),
            request == if completion matches Completion::Project(ProjectOutcome::Ready(_)) {
                Request::Refresh
            } else {
                Request::Nothing
            },
    {
        let shown = self.ui.textured_view;
        match completion {
            Completion::Project(ProjectOutcome::Ready(project)) => {
                self.adopt(project);
                Request::Refresh
            },
            Completion::Project(ProjectOutcome::Prompt(settings, pending)) => {
                self.slot = Slot::Idle;
                ask(&mut self.ui, settings, pending);
                assert(self.document == old(self).document);
                assert(self.active == old(self).active);
                Request::Nothing
            },
            Completion::Project(ProjectOutcome::Error(error)) => {
                self.relieve(error, shown);
                Request::Nothing
            },
            Completion::Visual(Ok(batches)) => {
                let mut message = "Visualização texturizada carregada: ".to_owned();
                push_index(&mut message, batches);
                message.append(" lote(s).");
                self.relieve(message, shown);
                self.scene = true;
                Request::Nothing
            },
            Completion::Visual(Err(error)) => {
                self.relieve(error, false);
                Request::Nothing
            },
            Completion::Disconnected(error) => {
                let kept = shown && self.scene;
                self.relieve(error, kept);
                Request::Nothing
            },
        }
    }
}

/// Whatever came of it, work that was taken up leaves its place free.
pub proof fn completion_frees_the_slot(session: SessionModel, completion: Completion)
    ensures
        session.completed(completion).slot == Slot::Idle,
{
}

/// A textured scene that was loaded is used again, and nothing is loaded.
pub proof fn loaded_scene_is_reused(session: SessionModel)
    requires
        session.scene,
    ensures
        session.texture_request() == (session, None::<ActiveModel>),
{
}

} // verus!
