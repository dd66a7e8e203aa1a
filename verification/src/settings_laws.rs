//! What settings files and command lines say.

use vstd::prelude::*;

use crate::editor;
use crate::editor::{EditorTheme, MapType, MemoryModel, OptionsModel};
use crate::editor_laws;
use crate::path_laws;
use crate::text;

verus! {

/// A value that stands in a settings file as it is.
pub open spec fn is_plain(value: Seq<char>) -> bool {
    forall|i: int|
        0 <= i < value.len() ==> (#[trigger] value[i]) != '\\' && value[i] != '\n' && value[i]
            != '\r'
}

/// A text that says a word, in upper or lower case, with white space around it.
pub open spec fn says_with_space(value: Seq<char>, word: Seq<char>) -> bool {
    path_laws::says(text::trimmed(value), word)
}

proof fn lemma_named(value: Seq<char>)
    ensures
        (MapType::named(value) == Some(MapType::Classic)) == says_with_space(
            value,
            seq!['c', 'l', 'a', 's', 's', 'i', 'c'],
        ),
        (MapType::named(value) == Some(MapType::Normal)) == says_with_space(
            value,
            seq!['n', 'o', 'r', 'm', 'a', 'l'],
        ),
        (EditorTheme::named(value) == Some(EditorTheme::Dark)) == says_with_space(
            value,
            seq!['d', 'a', 'r', 'k'],
        ),
        (EditorTheme::named(value) == Some(EditorTheme::Light)) == says_with_space(
            value,
            seq!['l', 'i', 'g', 'h', 't'],
        ),
{
    reveal_strlit("classic");
    reveal_strlit("normal");
    reveal_strlit("dark");
    reveal_strlit("light");
    let classic = seq!['c', 'l', 'a', 's', 's', 'i', 'c'];
    let normal = seq!['n', 'o', 'r', 'm', 'a', 'l'];
    let dark = seq!['d', 'a', 'r', 'k'];
    let light = seq!['l', 'i', 'g', 'h', 't'];
    assert("classic"@ =~= classic);
    assert("normal"@ =~= normal);
    assert("dark"@ =~= dark);
    assert("light"@ =~= light);
    assert(classic.len() == 7 && normal.len() == 6 && dark.len() == 4 && light.len() == 5);
    let word = text::trimmed(value);
    path_laws::lemma_says(word, classic);
    path_laws::lemma_says(word, normal);
    path_laws::lemma_says(word, dark);
    path_laws::lemma_says(word, light);
}

/// The words for flavours and themes are known in upper and lower case and with
/// white space around them, and no others are.
pub proof fn words_name_flavours_and_themes(value: Seq<char>)
    ensures
        (MapType::named(value) == Some(MapType::Classic)) == says_with_space(
            value,
            seq!['c', 'l', 'a', 's', 's', 'i', 'c'],
        ),
        (MapType::named(value) == Some(MapType::Normal)) == says_with_space(
            value,
            seq!['n', 'o', 'r', 'm', 'a', 'l'],
        ),
        (EditorTheme::named(value) == Some(EditorTheme::Dark)) == says_with_space(
            value,
            seq!['d', 'a', 'r', 'k'],
        ),
        (EditorTheme::named(value) == Some(EditorTheme::Light)) == says_with_space(
            value,
            seq!['l', 'i', 'g', 'h', 't'],
        ),
{
    lemma_named(value);
}

/// A line of a settings file sets what its key names and leaves the rest. Paths
/// are taken as they stand, unknown words for a flavour or a theme give the
/// default one, and unknown keys set nothing. Later lines come after.
pub proof fn lines_set_what_they_name(
    memory: MemoryModel,
    value: Seq<char>,
    key: Seq<char>,
    rest: Seq<char>,
)
    requires
        is_plain(value),
        key.len() > 0,
        key != "client_root"@ && key != "geodata_path"@ && key != "map_type"@ && key != "theme"@,
        forall|i: int|
            0 <= i < key.len() ==> (#[trigger] key[i]) != '=' && key[i] != '\n' && key[i] != '\r',
    ensures
        memory.after_lines("client_root="@ + value + seq!['\n'] + rest) == (MemoryModel {
            client_root: value,
            ..memory
        }).after_lines(rest),
        memory.after_lines("geodata_path="@ + value + seq!['\n'] + rest) == (MemoryModel {
            geodata_path: value,
            ..memory
        }).after_lines(rest),
        memory.after_lines("map_type="@ + value + seq!['\n'] + rest) == (MemoryModel {
            map_type: if says_with_space(value, seq!['n', 'o', 'r', 'm', 'a', 'l']) {
                MapType::Normal
            } else {
                MapType::Classic
            },
            ..memory
        }).after_lines(rest),
        memory.after_lines("theme="@ + value + seq!['\n'] + rest) == (MemoryModel {
            theme: if says_with_space(value, seq!['l', 'i', 'g', 'h', 't']) {
                EditorTheme::Light
            } else {
                EditorTheme::Dark
            },
            ..memory
        }).after_lines(rest),
        memory.after_lines(key + seq!['='] + value + seq!['\n'] + rest) == memory.after_lines(rest),
{
    reveal_strlit("client_root=");
    reveal_strlit("geodata_path=");
    reveal_strlit("map_type=");
    reveal_strlit("theme=");
    reveal_strlit("client_root");
    reveal_strlit("geodata_path");
    reveal_strlit("map_type");
    reveal_strlit("theme");
    assert("client_root="@.drop_last() =~= "client_root"@);
    assert("geodata_path="@.drop_last() =~= "geodata_path"@);
    assert("map_type="@.drop_last() =~= "map_type"@);
    assert("theme="@.drop_last() =~= "theme"@);
    assert("client_root"@.len() == 11 && "geodata_path"@.len() == 12 && "map_type"@.len() == 8
        && "theme"@.len() == 5);
    editor_laws::lemma_plain(value);
    lemma_named(value);
    editor_laws::lemma_setting(memory, "client_root="@, value, rest);
    editor_laws::lemma_setting(memory, "geodata_path="@, value, rest);
    editor_laws::lemma_setting(memory, "map_type="@, value, rest);
    editor_laws::lemma_setting(memory, "theme="@, value, rest);
    let other = key + seq!['='];
    assert(other.drop_last() =~= key);
    assert forall|i: int| 0 <= i < other.len() implies (#[trigger] other[i]) != '\n' && other[i]
        != '\r' && (i < other.len() - 1 ==> other[i] != '=') by {
        if i < key.len() {
            assert(other[i] == key[i]);
        }
    }
    editor_laws::lemma_setting(memory, other, value, rest);
}

/// A settings file starts with its version and names every setting once.
pub proof fn settings_are_written_line_by_line(memory: MemoryModel)
    ensures
        editor::formatted(memory) == "version=4\n"@ + "client_root="@ + editor::escaped(
            memory.client_root,
        ) + "\ngeodata_path="@ + editor::escaped(memory.geodata_path) + "\nmap_type="@ + (
        if memory.map_type == MapType::Classic {
            "classic"@
        } else {
            "normal"@
        }) + "\ntheme="@ + (if memory.theme == EditorTheme::Dark {
            "dark"@
        } else {
            "light"@
        }) + "\n"@,
{
    reveal_strlit("version=4\n");
    reveal_strlit("version=");
    reveal_strlit("4");
    reveal_strlit("\ngeodata_path=");
    reveal_strlit("geodata_path=");
    reveal_strlit("\nmap_type=");
    reveal_strlit("map_type=");
    reveal_strlit("\ntheme=");
    reveal_strlit("theme=");
    reveal_strlit("\n");
    assert("version=4\n"@ =~= "version="@ + "4"@ + seq!['\n']);
    assert("\ngeodata_path="@ =~= seq!['\n'] + "geodata_path="@);
    assert("\nmap_type="@ =~= seq!['\n'] + "map_type="@);
    assert("\ntheme="@ =~= seq!['\n'] + "theme="@);
    assert("\n"@ =~= seq!['\n']);
    let flavour = if memory.map_type == MapType::Classic {
        "classic"@
    } else {
        "normal"@
    };
    let theme = if memory.theme == EditorTheme::Dark {
        "dark"@
    } else {
        "light"@
    };
    assert(editor::formatted(memory) =~= "version=4\n"@ + "client_root="@ + editor::escaped(
        memory.client_root,
    ) + "\ngeodata_path="@ + editor::escaped(memory.geodata_path) + "\nmap_type="@ + flavour
        + "\ntheme="@ + theme + "\n"@);
}

/// Backslashes and line ends are written with a backslash in front, and every
/// other character as it is.
pub proof fn characters_are_escaped_one_by_one(value: Seq<char>, c: char)
    ensures
        editor::escaped(value.push(c)) == editor::escaped(value) + if c == '\\' {
            seq!['\\', '\\']
        } else if c == '\n' {
            seq!['\\', 'n']
        } else if c == '\r' {
            seq!['\\', 'r']
        } else {
            seq![c]
        },
        editor::escaped(Seq::<char>::empty()) == Seq::<char>::empty(),
{
    assert(value.push(c).drop_last() =~= value);
}

/// The options of a command line can be given in any order, and of two of one
/// kind the last one counts.
pub proof fn options_come_in_any_order(
    program: Seq<char>,
    input: Seq<char>,
    root: Seq<char>,
    flavour: Seq<char>,
)
    requires
        MapType::named(flavour) is Some,
        input != "--help"@ && input != "-h"@,
        root != "--help"@ && root != "-h"@,
        flavour != "--help"@ && flavour != "-h"@,
    ensures
        ({
            let expected = editor::ParsedOptions::Ok(
                OptionsModel {
                    input: Some(input),
                    client_root: Some(root),
                    map_type: MapType::named(flavour),
                },
            );
            &&& editor::parsed_options(
                seq![program, "--input"@, input, "--client-root"@, root, "--type"@, flavour],
            ) == expected
            &&& editor::parsed_options(
                seq![program, "--type"@, flavour, "--client-root"@, root, "--input"@, input],
            ) == expected
            &&& editor::parsed_options(
                seq![program, "--client-root"@, input, "--client-root"@, root],
            ) == editor::ParsedOptions::Ok(
                OptionsModel { input: None, client_root: Some(root), map_type: None },
            )
            &&& editor::parsed_options(seq![program, "--input"@, input]) is Err
            &&& editor::parsed_options(seq![program]) == editor::ParsedOptions::Ok(
                OptionsModel { input: None, client_root: None, map_type: None },
            )
        }),
{
    reveal_strlit("--input");
    reveal_strlit("--client-root");
    reveal_strlit("--type");
    reveal_strlit("--help");
    reveal_strlit("-h");
    assert("--input"@.len() == 7 && "--client-root"@.len() == 13 && "--type"@.len() == 6
        && "--help"@.len() == 6 && "-h"@.len() == 2);
    assert("--type"@[2] == 't' && "--help"@[2] == 'h');
    reveal_with_fuel(editor::options_from, 5);
}

/// An option that is not known or lacks its value is refused, and so is every
/// command line that asks for help.
pub proof fn broken_command_lines_are_refused(
    arguments: Seq<Seq<char>>,
    program: Seq<char>,
    word: Seq<char>,
    place: int,
)
    requires
        word != "--input"@ && word != "--client-root"@ && word != "--type"@,
        1 <= place < arguments.len(),
        arguments[place] == "--help"@ || arguments[place] == "-h"@,
    ensures
        editor::parsed_options(arguments) is Err,
        editor::parsed_options(seq![program, word]) is Err,
        editor::parsed_options(seq![program, "--input"@]) is Err,
        editor::parsed_options(seq![program, "--client-root"@]) is Err,
        editor::parsed_options(seq![program, "--type"@]) is Err,
{
    reveal_strlit("--input");
    reveal_strlit("--client-root");
    reveal_strlit("--type");
    assert("--input"@.len() == 7 && "--client-root"@.len() == 13 && "--type"@.len() == 6);
    assert(editor::asks_for_help(arguments));
}

/// A line without an equals sign says nothing, and the last line needs no line
/// end.
pub proof fn lines_may_say_nothing(memory: MemoryModel, line: Seq<char>, rest: Seq<char>)
    requires
        line.len() > 0,
        forall|i: int| 0 <= i < line.len() ==> (#[trigger] line[i]) != '\n' && line[i] != '\r',
    ensures
        memory.after_lines(line + seq!['\n']) == memory.after_lines(line),
        (forall|i: int| 0 <= i < line.len() ==> (#[trigger] line[i]) != '=')
            ==> memory.after_lines(line + seq!['\n'] + rest) == memory.after_lines(rest)
            && memory.after_lines(line) == memory,
{
    lemma_first(line, Seq::empty(), '\n');
    lemma_first(line, Seq::empty(), '=');
    lemma_first(line, seq!['\n'], '\n');
    lemma_first(line, seq!['\n'] + rest, '\n');
    assert(line + Seq::<char>::empty() =~= line);
    let ended = line + seq!['\n'];
    let whole = line + seq!['\n'] + rest;
    assert(whole =~= line + (seq!['\n'] + rest));
    assert(ended.take(line.len() as int) =~= line);
    assert(whole.take(line.len() as int) =~= line);
    assert(whole.skip(line.len() as int + 1) =~= rest);
    assert(ended.skip(line.len() as int + 1) =~= Seq::<char>::empty());
    assert(memory.after_line(line).after_lines(Seq::empty()) == memory.after_line(line));
    assert(line.last() != '\r');
}

proof fn lemma_first(line: Seq<char>, back: Seq<char>, c: char)
    requires
        back.len() == 0 || back[0] == c,
    ensures
        (forall|i: int| 0 <= i < line.len() ==> (#[trigger] line[i]) != c) ==> editor::first_of(
            line + back,
            c,
        ) == line.len(),
    decreases line.len(),
{
    if line.len() == 0 {
        assert(line + back =~= back);
    } else {
        lemma_first(line.skip(1), back, c);
        assert((line + back).skip(1) =~= line.skip(1) + back);
        assert((line + back)[0] == line[0]);
        if forall|i: int| 0 <= i < line.len() ==> (#[trigger] line[i]) != c {
            assert forall|i: int| 0 <= i < line.skip(1).len() implies (#[trigger] line.skip(1)[i])
                != c by {
                assert(line.skip(1)[i] == line[i + 1]);
            }
        }
    }
}

} // verus!
