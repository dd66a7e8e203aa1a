//! Command line, map flavours, colour themes and remembered settings.

use vstd::prelude::*;
use vstd::slice::slice_subrange;
use vstd::string::StringExecFns;

use crate::error::{AppError, ErrorModel, Result};
use crate::path::{file_name, stem};
use crate::text::{
    chars_end_with, chars_of, is_text, lower_chars, same_text, string_of, trim_chars,
};
use crate::{path, text};

verus! {

/// How the editor is called.
pub const USAGE: &'static str = "GeodataEditor [--input <arquivo.l2j|arquivo.l2g|mapa_conv.dat>] [--client-root <cliente>] [--type classic|normal]";

/// Map flavour of the Lineage II client. It decides which Unreal package under
/// `<client>/Maps` backs a geodata region: `22_22.unr` for normal clients and
/// `22_22_Classic.unr` for classic ones.
#[derive(Clone, Copy, Debug, PartialEq, Eq, Structural)]
pub enum MapType {
    Classic,
    Normal,
}

impl Default for MapType {
    fn default() -> (map_type: Self)
        ensures
            map_type == MapType::Classic,
    {
        MapType::Classic
    }
}

impl MapType {
    pub const ALL: [MapType; 2] = [MapType::Classic, MapType::Normal];

    pub open spec fn title(self) -> Seq<char> {
        match self {
            MapType::Classic => "Classic"@,
            MapType::Normal => "Normal"@,
        }
    }

    /// The package of a region in this flavour.
    pub open spec fn package_of(self, region: Seq<char>) -> Seq<char> {
        match self {
            MapType::Classic => region + "_Classic"@,
            MapType::Normal => region,
        }
    }

    pub open spec fn keyword(self) -> Seq<char> {
        match self {
            MapType::Classic => "classic"@,
            MapType::Normal => "normal"@,
        }
    }

    /// The flavour that a word names, in any case and with space around it.
    pub open spec fn named(value: Seq<char>) -> Option<MapType> {
        let word = text::ascii_lower(text::trimmed(value));
        if word == "classic"@ {
            Some(MapType::Classic)
        } else if word == "normal"@ {
            Some(MapType::Normal)
        } else {
            None
        }
    }

    pub open spec fn counterpart(self) -> MapType {
        match self {
            MapType::Classic => MapType::Normal,
            MapType::Normal => MapType::Classic,
        }
    }

    pub fn label(self) -> (label: &'static str)
        ensures
            label@ == self.title(),
    {
        match self {
            MapType::Classic => "Classic",
            MapType::Normal => "Normal",
        }
    }

    /// The other flavour.
    pub fn other(self) -> (other: MapType)
        ensures
            other == self.counterpart(),
    {
        match self {
            MapType::Classic => MapType::Normal,
            MapType::Normal => MapType::Classic,
        }
    }

    /// Unreal package name for a geodata region, for example `22_22_Classic`.
    pub fn package_name(self, region: &str) -> (name: String)
        ensures
            name@ == self.package_of(region@),
    {
        let mut name = region.to_owned();
        if let MapType::Classic = self {
            name.append("_Classic");
        }
        name
    }

    /// The word that names the flavour in the settings file.
    pub fn key(self) -> (key: &'static str)
        ensures
            key@ == self.keyword(),
    {
        match self {
            MapType::Classic => "classic",
            MapType::Normal => "normal",
        }
    }

    pub fn parse(value: &str) -> (map_type: Option<MapType>)
        ensures
            map_type == MapType::named(value@),
    {
        let chars = chars_of(value);
        let word = lower_chars(trim_chars(chars.as_slice()));
        if is_text(word.as_slice(), "classic") {
            Some(MapType::Classic)
        } else if is_text(word.as_slice(), "normal") {
            Some(MapType::Normal)
        } else {
            None
        }
    }
}

/// Colour scheme of the editor. Dark is the default; light is opt-in.
#[derive(Clone, Copy, Debug, PartialEq, Eq, Structural)]
pub enum EditorTheme {
    Dark,
    Light,
}

impl Default for EditorTheme {
    fn default() -> (theme: Self)
        ensures
            theme == EditorTheme::Dark,
    {
        EditorTheme::Dark
    }
}

impl EditorTheme {
    pub open spec fn flipped(self) -> EditorTheme {
        match self {
            EditorTheme::Dark => EditorTheme::Light,
            EditorTheme::Light => EditorTheme::Dark,
        }
    }

    pub open spec fn title(self) -> Seq<char> {
        match self {
            EditorTheme::Dark => "Escuro"@,
            EditorTheme::Light => "Claro"@,
        }
    }

    pub open spec fn keyword(self) -> Seq<char> {
        match self {
            EditorTheme::Dark => "dark"@,
            EditorTheme::Light => "light"@,
        }
    }

    /// The theme that a word names, in any case and with space around it.
    pub open spec fn named(value: Seq<char>) -> Option<EditorTheme> {
        let word = text::ascii_lower(text::trimmed(value));
        if word == "dark"@ {
            Some(EditorTheme::Dark)
        } else if word == "light"@ {
            Some(EditorTheme::Light)
        } else {
            None
        }
    }

    /// Returns the other theme, used to implement a single toggle control.
    pub fn toggled(self) -> (theme: EditorTheme)
        ensures
            theme == self.flipped(),
            theme.flipped() == self,
    {
        match self {
            EditorTheme::Dark => EditorTheme::Light,
            EditorTheme::Light => EditorTheme::Dark,
        }
    }

    pub fn label(self) -> (label: &'static str)
        ensures
            label@ == self.title(),
    {
        match self {
            EditorTheme::Dark => "Escuro",
            EditorTheme::Light => "Claro",
        }
    }

    /// The word that names the theme in the settings file.
    pub fn key(self) -> (key: &'static str)
        ensures
            key@ == self.keyword(),
    {
        match self {
            EditorTheme::Dark => "dark",
            EditorTheme::Light => "light",
        }
    }

    pub fn parse(value: &str) -> (theme: Option<EditorTheme>)
        ensures
            theme == EditorTheme::named(value@),
    {
        let chars = chars_of(value);
        let word = lower_chars(trim_chars(chars.as_slice()));
        if is_text(word.as_slice(), "dark") {
            Some(EditorTheme::Dark)
        } else if is_text(word.as_slice(), "light") {
            Some(EditorTheme::Light)
        } else {
            None
        }
    }
}

/// The region that a geodata file is named after, where there is one.
pub open spec fn region_of(path: Seq<char>) -> Option<Seq<char>> {
    match path::file_name_of(path) {
        None => None,
        Some(name) => {
            let region = if text::ends_with(text::ascii_lower(name), "_conv.dat"@) {
                name.take(name.len() - 9)
            } else {
                path::stem_of(name)
            };
            if region.len() == 0 {
                None
            } else {
                Some(region)
            }
        },
    }
}

/// Region shared by a geodata file and its Unreal package: `22_22` for
/// `22_22.l2j`, `22_22.l2g`, and `22_22_conv.dat`.
pub fn geodata_region(path: &str) -> (region: Option<String>)
    ensures
        match region {
            Some(region) => region_of(path@) == Some(region@),
            None => region_of(path@) is None,
        },
{
    let name = match file_name(path) {
        Some(name) => name,
        None => {
            return None;
        },
    };
    let region: Vec<char> = if chars_end_with(
        lower_chars(name.as_slice()).as_slice(),
        "_conv.dat",
    ) {
        proof {
            reveal_strlit("_conv.dat");
        }
        let front = slice_subrange(name.as_slice(), 0, name.len() - 9);
        assert(front@ =~= name@.take(name@.len() - 9));
        vstd::slice::slice_to_vec(front)
    } else {
        stem(name.as_slice())
    };
    if region.len() == 0 {
        None
    } else {
        Some(string_of(region.as_slice()))
    }
}

/// Values restored into the editor welcome screen. They are stored only in the
/// local user profile, not beside the executable.
#[derive(Clone, Debug, PartialEq, Eq)]
pub struct EditorMemory {
    pub client_root: String,
    pub geodata_path: String,
    pub map_type: MapType,
    pub theme: EditorTheme,
}

/// What an [`EditorMemory`] holds.
#[verifier::ext_equal]
pub struct MemoryModel {
    pub client_root: Seq<char>,
    pub geodata_path: Seq<char>,
    pub map_type: MapType,
    pub theme: EditorTheme,
}

impl View for EditorMemory {
    type V = MemoryModel;

    open spec fn view(&self) -> MemoryModel {
        MemoryModel {
            client_root: self.client_root@,
            geodata_path: self.geodata_path@,
            map_type: self.map_type,
            theme: self.theme,
        }
    }
}

impl MemoryModel {
    /// Nothing remembered.
    pub open spec fn empty() -> MemoryModel {
        MemoryModel {
            client_root: Seq::empty(),
            geodata_path: Seq::empty(),
            map_type: MapType::Classic,
            theme: EditorTheme::Dark,
        }
    }

    /// The settings with one of them replaced. Unknown keys change nothing, and
    /// an unknown flavour or theme is the default one.
    pub open spec fn with(self, key: Seq<char>, value: Seq<char>) -> MemoryModel {
        if key == "client_root"@ {
            MemoryModel { client_root: value, ..self }
        } else if key == "geodata_path"@ {
            MemoryModel { geodata_path: value, ..self }
        } else if key == "map_type"@ {
            MemoryModel {
                map_type: match MapType::named(value) {
                    Some(map_type) => map_type,
                    None => MapType::Classic,
                },
                ..self
            }
        } else if key == "theme"@ {
            MemoryModel {
                theme: match EditorTheme::named(value) {
                    Some(theme) => theme,
                    None => EditorTheme::Dark,
                },
                ..self
            }
        } else {
            self
        }
    }

    /// The settings after a line `key=value`.
    pub open spec fn after_line(self, line: Seq<char>) -> MemoryModel {
        let split = first_of(line, '=');
        if split < line.len() {
            self.with(line.take(split), unescaped(line.skip(split + 1)))
        } else {
            self
        }
    }

    /// The settings after some lines.
    pub open spec fn after_lines(self, contents: Seq<char>) -> MemoryModel
        decreases contents.len(),
    {
        let end = first_of(contents, '\n');
        if contents.len() == 0 {
            self
        } else if 0 <= end < contents.len() {
            self.after_line(line_before(contents, end)).after_lines(contents.skip(end + 1))
        } else {
            self.after_line(contents)
        }
    }
}

/// Where a character first stands in a text; its length where it does not.
pub open spec fn first_of(contents: Seq<char>, c: char) -> int
    decreases contents.len(),
{
    if contents.len() == 0 || contents[0] == c {
        0
    } else {
        1 + first_of(contents.skip(1), c)
    }
}

/// A line that ends in a line feed, without a carriage return in front of it.
pub open spec fn line_before(contents: Seq<char>, end: int) -> Seq<char> {
    if end > 0 && contents[end - 1] == '\r' {
        contents.take(end - 1)
    } else {
        contents.take(end)
    }
}

/// One character as it is written.
pub open spec fn escaped_char(c: char) -> Seq<char> {
    if c == '\\' {
        seq!['\\', '\\']
    } else if c == '\n' {
        seq!['\\', 'n']
    } else if c == '\r' {
        seq!['\\', 'r']
    } else {
        seq![c]
    }
}

/// Text on one line: backslashes and line ends written with a backslash.
pub open spec fn escaped(value: Seq<char>) -> Seq<char>
    decreases value.len(),
{
    if value.len() == 0 {
        value
    } else {
        escaped(value.drop_last()) + escaped_char(value.last())
    }
}

/// The character that stands behind a backslash.
pub open spec fn meant(c: char) -> char {
    if c == 'n' {
        '\n'
    } else if c == 'r' {
        '\r'
    } else {
        c
    }
}

/// Text with every backslash resolved; one at the end stands for itself.
pub open spec fn unescaped(value: Seq<char>) -> Seq<char>
    decreases value.len(),
{
    if value.len() == 0 {
        value
    } else if value[0] != '\\' {
        seq![value[0]] + unescaped(value.skip(1))
    } else if value.len() == 1 {
        value
    } else {
        seq![meant(value[1])] + unescaped(value.skip(2))
    }
}

fn find_first(contents: &[char], c: char) -> (place: usize)
    ensures
        place == first_of(contents@, c),
        place <= contents@.len(),
        place < contents@.len() ==> contents@[place as int] == c,
{
    let mut place: usize = 0;
    assert(contents@.skip(0) =~= contents@);
    while place < contents.len() && contents[place] != c
        invariant
            place <= contents.len(),
            first_of(contents@, c) == place + first_of(contents@.skip(place as int), c),
        decreases contents.len() - place,
    {
        assert(contents@.skip(place as int).skip(1) =~= contents@.skip(place + 1));
        place += 1;
    }
    place
}

/// Text on one line: backslashes and line ends written with a backslash.
pub fn escape(value: &str) -> (result: String)
    ensures
        result@ == escaped(value@),
{
    let chars = chars_of(value);
    let mut result = String::new();
    let mut i: usize = 0;
    assert(chars@.take(0) =~= Seq::<char>::empty());
    while i < chars.len()
        invariant
            i <= chars.len(),
            result@ == escaped(chars@.take(i as int)),
        decreases chars.len() - i,
    {
        let c = chars[i];
        let ghost before = result@;
        if c == '\\' {
            result.push('\\');
            result.push('\\');
        } else if c == '\n' {
            result.push('\\');
            result.push('n');
        } else if c == '\r' {
            result.push('\\');
            result.push('r');
        } else {
            result.push(c);
        }
        i += 1;
        assert(result@ =~= before + escaped_char(c));
        assert(chars@.take(i as int).drop_last() =~= chars@.take(i - 1));
    }
    assert(chars@.take(i as int) =~= chars@);
    result
}

/// Resolves every backslash of a text.
pub fn unescape(value: &[char]) -> (result: String)
    ensures
        result@ == unescaped(value@),
{
    let mut result = String::new();
    let mut i: usize = 0;
    assert(value@.skip(0) =~= value@);
    assert(result@ + unescaped(value@) =~= unescaped(value@));
    while i < value.len()
        invariant
            i <= value.len(),
            result@ + unescaped(value@.skip(i as int)) == unescaped(value@),
        decreases value.len() - i,
    {
        let ghost rest = value@.skip(i as int);
        let ghost before = result@;
        if value[i] != '\\' {
            result.push(value[i]);
            i += 1;
            proof {
                assert(rest.skip(1) =~= value@.skip(i as int));
                assert(result@ + unescaped(rest.skip(1)) =~= before + unescaped(rest));
            }
        } else if i + 1 == value.len() {
            result.push('\\');
            i += 1;
            proof {
                assert(rest =~= seq!['\\']);
                assert(value@.skip(i as int) =~= Seq::<char>::empty());
                assert(result@ + Seq::<char>::empty() =~= before + unescaped(rest));
            }
        } else {
            let c = value[i + 1];
            let shown = if c == 'n' {
                '\n'
            } else if c == 'r' {
                '\r'
            } else {
                c
            };
            result.push(shown);
            i += 2;
            proof {
                assert(rest.skip(2) =~= value@.skip(i as int));
                assert(result@ + unescaped(rest.skip(2)) =~= before + unescaped(rest));
            }
        }
    }
    assert(value@.skip(i as int) =~= Seq::<char>::empty());
    assert(result@ + Seq::<char>::empty() =~= result@);
    result
}

impl EditorMemory {
    /// Nothing remembered.
    pub fn new() -> (memory: Self)
        ensures
            memory@ == MemoryModel::empty(),
    {
        EditorMemory {
            client_root: String::new(),
            geodata_path: String::new(),
            map_type: MapType::Classic,
            theme: EditorTheme::Dark,
        }
    }

    fn apply_line(&mut self, line: &[char])
        ensures
            final(self)@ == old(self)@.after_line(line@),
    {
        let split = find_first(line, '=');
        if split >= line.len() {
            return;
        }
        let key = slice_subrange(line, 0, split);
        let tail = slice_subrange(line, split + 1, line.len());
        assert(key@ =~= line@.take(split as int));
        assert(tail@ =~= line@.skip(split + 1));
        let value = unescape(tail);
        if is_text(key, "client_root") {
            self.client_root = value;
        } else if is_text(key, "geodata_path") {
            self.geodata_path = value;
        } else if is_text(key, "map_type") {
            self.map_type = match MapType::parse(value.as_str()) {
                Some(map_type) => map_type,
                None => MapType::Classic,
            };
        } else if is_text(key, "theme") {
            self.theme = match EditorTheme::parse(value.as_str()) {
                Some(theme) => theme,
                None => EditorTheme::Dark,
            };
        }
    }
}

impl Default for EditorMemory {
    fn default() -> (memory: Self)
        ensures
            memory@ == MemoryModel::empty(),
    {
        EditorMemory::new()
    }
}

/// Reads remembered settings. Lines that are not understood are passed over.
pub fn parse_memory(contents: &str) -> (memory: EditorMemory)
    ensures
        memory@ == MemoryModel::empty().after_lines(contents@),
{
    let chars = chars_of(contents);
    let mut memory = EditorMemory::new();
    let mut start: usize = 0;
    assert(chars@.skip(0) =~= chars@);
    while start < chars.len()
        invariant
            start <= chars.len(),
            memory@.after_lines(chars@.skip(start as int)) == MemoryModel::empty().after_lines(
                chars@,
            ),
        decreases chars.len() - start,
    {
        let rest = slice_subrange(chars.as_slice(), start, chars.len());
        assert(rest@ =~= chars@.skip(start as int));
        let end = find_first(rest, '\n');
        if end >= rest.len() {
            memory.apply_line(rest);
            start = chars.len();
            assert(chars@.skip(start as int) =~= Seq::<char>::empty());
        } else {
            let line_end: usize = if end > 0 && rest[end - 1] == '\r' {
                end - 1
            } else {
                end
            };
            let line = slice_subrange(rest, 0, line_end);
            assert(line@ =~= line_before(rest@, end as int));
            memory.apply_line(line);
            start += end + 1;
            assert(rest@.skip(end + 1) =~= chars@.skip(start as int));
        }
    }
    assert(chars@.skip(start as int) =~= Seq::<char>::empty());
    memory
}

/// A line of the settings file.
pub open spec fn setting_line(key: Seq<char>, value: Seq<char>) -> Seq<char> {
    key + value + seq!['\n']
}

/// The settings file.
pub open spec fn formatted(memory: MemoryModel) -> Seq<char> {
    setting_line("version="@, "4"@) + setting_line("client_root="@, escaped(memory.client_root))
        + setting_line("geodata_path="@, escaped(memory.geodata_path)) + setting_line(
        "map_type="@,
        memory.map_type.keyword(),
    ) + setting_line("theme="@, memory.theme.keyword())
}

fn push_line(contents: &mut String, key: &str, value: &str)
    ensures
        final(contents)@ == old(contents)@ + setting_line(key@, value@),
{
    contents.append(key);
    contents.append(value);
    contents.push('\n');
    assert(final(contents)@ =~= old(contents)@ + setting_line(key@, value@));
}

/// Writes settings to be remembered.
pub fn format_memory(memory: &EditorMemory) -> (contents: String)
    ensures
        contents@ == formatted(memory@),
{
    let mut contents = String::new();
    push_line(&mut contents, "version=", "4");
    assert(contents@ =~= setting_line("version="@, "4"@));
    let root = escape(memory.client_root.as_str());
    push_line(&mut contents, "client_root=", root.as_str());
    let geodata = escape(memory.geodata_path.as_str());
    push_line(&mut contents, "geodata_path=", geodata.as_str());
    push_line(&mut contents, "map_type=", memory.map_type.key());
    push_line(&mut contents, "theme=", memory.theme.key());
    contents
}

/// What the command line asks for.
#[derive(Clone, Debug, PartialEq, Eq)]
pub struct EditorOptions {
    pub input: Option<String>,
    pub client_root: Option<String>,
    pub map_type: Option<MapType>,
}

/// What [`EditorOptions`] hold.
#[verifier::ext_equal]
pub struct OptionsModel {
    pub input: Option<Seq<char>>,
    pub client_root: Option<Seq<char>>,
    pub map_type: Option<MapType>,
}

/// The characters of a string that may be missing.
pub open spec fn text_of(value: Option<String>) -> Option<Seq<char>> {
    match value {
        Some(value) => Some(value@),
        None => None,
    }
}

impl View for EditorOptions {
    type V = OptionsModel;

    open spec fn view(&self) -> OptionsModel {
        OptionsModel {
            input: text_of(self.input),
            client_root: text_of(self.client_root),
            map_type: self.map_type,
        }
    }
}

impl EditorOptions {
    pub fn new() -> (options: Self)
        ensures
            options@ == (OptionsModel { input: None, client_root: None, map_type: None }),
    {
        EditorOptions { input: None, client_root: None, map_type: None }
    }
}

impl Default for EditorOptions {
    fn default() -> (options: Self)
        ensures
            options@ == (OptionsModel { input: None, client_root: None, map_type: None }),
    {
        EditorOptions::new()
    }
}

/// The options of a command line, or why it is refused.
pub type ParsedOptions = std::result::Result<OptionsModel, ErrorModel>;

pub open spec fn missing_value(flag: Seq<char>) -> ErrorModel {
    ErrorModel::InvalidArgument("missing value for "@ + flag)
}

pub open spec fn bad_map_type(value: Seq<char>) -> ErrorModel {
    ErrorModel::InvalidArgument(
        "invalid map type: "@ + value + "; expected classic or normal"@,
    )
}

/// The options from one argument on; a later one of a kind replaces an earlier one.
pub open spec fn options_from(
    values: Seq<Seq<char>>,
    index: int,
    options: OptionsModel,
) -> ParsedOptions
    decreases values.len() - index,
{
    if index >= values.len() {
        Ok(options)
    } else {
        let option = values[index];
        if option == "--input"@ {
            if index + 1 >= values.len() {
                Err(missing_value("--input"@))
            } else {
                options_from(
                    values,
                    index + 2,
                    OptionsModel { input: Some(values[index + 1]), ..options },
                )
            }
        } else if option == "--client-root"@ {
            if index + 1 >= values.len() {
                Err(missing_value("--client-root"@))
            } else {
                options_from(
                    values,
                    index + 2,
                    OptionsModel { client_root: Some(values[index + 1]), ..options },
                )
            }
        } else if option == "--type"@ {
            if index + 1 >= values.len() {
                Err(missing_value("--type"@))
            } else if MapType::named(values[index + 1]) is None {
                Err(bad_map_type(values[index + 1]))
            } else {
                options_from(
                    values,
                    index + 2,
                    OptionsModel { map_type: MapType::named(values[index + 1]), ..options },
                )
            }
        } else {
            Err(ErrorModel::InvalidArgument("unknown option: "@ + option))
        }
    }
}

/// Whether some argument behind the program's name asks for help.
pub open spec fn asks_for_help(arguments: Seq<Seq<char>>) -> bool {
    exists|i: int|
        1 <= i < arguments.len() && (#[trigger] arguments[i] == "--help"@ || arguments[i] == "-h"@)
}

/// The options of a command line. A geodata file needs a client beside it.
pub open spec fn parsed_options(arguments: Seq<Seq<char>>) -> ParsedOptions {
    if asks_for_help(arguments) {
        Err(ErrorModel::InvalidArgument(Seq::empty()))
    } else {
        match options_from(
            arguments,
            1,
            OptionsModel { input: None, client_root: None, map_type: None },
        ) {
            Err(error) => Err(error),
            Ok(options) => if options.input is Some && options.client_root is None {
                Err(
                    ErrorModel::InvalidArgument(
                        "GeodataEditor requires --client-root when --input is provided"@,
                    ),
                )
            } else {
                Ok(options)
            },
        }
    }
}

/// Whether some argument behind the program's name asks for help.
pub fn wants_help(arguments: &[String]) -> (help: bool)
    ensures
        help == asks_for_help(text::texts(arguments@)),
{
    let mut i: usize = 1;
    while i < arguments.len()
        invariant
            1 <= i,
            forall|k: int|
                1 <= k < i && k < arguments@.len() ==> (#[trigger] text::texts(arguments@)[k]) != "--help"@
                    && text::texts(arguments@)[k] != "-h"@,
        decreases arguments.len() - i,
    {
        assert(text::texts(arguments@)[i as int] == arguments@[i as int]@);
        if same_text(arguments[i].as_str(), "--help") || same_text(arguments[i].as_str(), "-h") {
            return true;
        }
        i += 1;
    }
    false
}

fn fail_missing(flag: &str) -> (error: AppError)
    ensures
        error@ == missing_value(flag@),
{
    let mut message = "missing value for ".to_owned();
    message.append(flag);
    AppError::InvalidArgument(message)
}

/// Reads the command line. The first argument is the program's name. Whether
/// the named directory and file exist is asked by [`EditorOptions::check_paths`].
pub fn parse(arguments: &[String]) -> (result: Result<EditorOptions>)
    ensures
        match (result, parsed_options(text::texts(arguments@))) {
            (Ok(options), Ok(expected)) => options@ == expected,
            (Err(error), Err(expected)) => error@ == expected,
            _ => false,
        },
{
    if wants_help(arguments) {
        return Err(AppError::InvalidArgument(String::new()));
    }
    let ghost values = text::texts(arguments@);
    let mut options = EditorOptions::new();
    let mut index: usize = 1;
    while index < arguments.len()
        invariant
            1 <= index,
            values == text::texts(arguments@),
            values.len() == arguments@.len(),
            !asks_for_help(values),
            options_from(values, index as int, options@) == options_from(
                values,
                1,
                OptionsModel { input: None, client_root: None, map_type: None },
            ),
        decreases arguments.len() - index,
    {
        let option = arguments[index].as_str();
        assert(option@ == values[index as int]);
        let more = index < arguments.len() - 1;
        if more {
            assert(arguments@[index + 1]@ == values[index + 1]);
        }
        if same_text(option, "--input") {
            if !more {
                return Err(fail_missing("--input"));
            }
            options.input = Some(arguments[index + 1].clone());
        } else if same_text(option, "--client-root") {
            if !more {
                return Err(fail_missing("--client-root"));
            }
            options.client_root = Some(arguments[index + 1].clone());
        } else if same_text(option, "--type") {
            if !more {
                return Err(fail_missing("--type"));
            }
            match MapType::parse(arguments[index + 1].as_str()) {
                Some(map_type) => {
                    options.map_type = Some(map_type);
                },
                None => {
                    let mut message = "invalid map type: ".to_owned();
                    message.append(arguments[index + 1].as_str());
                    message.append("; expected classic or normal");
                    return Err(AppError::InvalidArgument(message));
                },
            }
        } else {
            let mut message = "unknown option: ".to_owned();
            message.append(option);
            return Err(AppError::InvalidArgument(message));
        }
        index += 2;
    }
    if options.input.is_some() && options.client_root.is_none() {
        return Err(
            AppError::InvalidArgument(
                "GeodataEditor requires --client-root when --input is provided".to_owned(),
            ),
        );
    }
    Ok(options)
}

/// Why options cannot be used, given what exists on disk.
pub open spec fn path_refusal(
    options: OptionsModel,
    root_is_directory: bool,
    input_is_file: bool,
) -> Option<ErrorModel> {
    if options.client_root is Some && !root_is_directory {
        Some(
            ErrorModel::InvalidArgument(
                "invalid Lineage II client path: "@ + options.client_root->0,
            ),
        )
    } else if options.input is Some && !input_is_file {
        Some(ErrorModel::InvalidArgument("invalid geodata input: "@ + options.input->0))
    } else {
        None
    }
}

impl EditorOptions {
    /// Refuses options that name a client which is no directory or a geodata
    /// file which is no file.
    pub fn check_paths(&self, root_is_directory: bool, input_is_file: bool) -> (result: Result<()>)
        ensures
            match (result, path_refusal(self@, root_is_directory, input_is_file)) {
                (Ok(_), None) => true,
                (Err(error), Some(expected)) => error@ == expected,
                _ => false,
            },
    {
        if let Some(root) = &self.client_root {
            if !root_is_directory {
                let mut message = "invalid Lineage II client path: ".to_owned();
                message.append(root.as_str());
                return Err(AppError::InvalidArgument(message));
            }
        }
        if let Some(input) = &self.input {
            if !input_is_file {
                let mut message = "invalid geodata input: ".to_owned();
                message.append(input.as_str());
                return Err(AppError::InvalidArgument(message));
            }
        }
        Ok(())
    }
}

} // verus!
