//! Remembered settings come back as they were.

use vstd::prelude::*;

use crate::editor;
use crate::editor::{EditorTheme, MapType, MemoryModel};
use crate::text;

verus! {

proof fn lemma_escaped_back(value: Seq<char>, tail: Seq<char>)
    ensures
        editor::unescaped(editor::escaped(value) + tail) == value + editor::unescaped(tail),
    decreases value.len(),
{
    if value.len() == 0 {
        assert(editor::escaped(value) + tail =~= tail);
        assert(value + editor::unescaped(tail) =~= editor::unescaped(tail));
    } else {
        let front = value.drop_last();
        let last = editor::escaped_char(value.last());
        assert(editor::escaped(value) + tail =~= editor::escaped(front) + (last + tail));
        lemma_escaped_back(front, last + tail);
        assert((last + tail).skip(last.len() as int) =~= tail);
        assert(editor::unescaped(last + tail) == seq![value.last()] + editor::unescaped(tail));
        assert(value + editor::unescaped(tail) =~= front + (seq![value.last()] + editor::unescaped(
            tail,
        )));
    }
}

/// Resolving the backslashes of an escaped text gives the text.
pub proof fn unescaping_undoes_escaping(value: Seq<char>)
    ensures
        editor::unescaped(editor::escaped(value)) == value,
{
    lemma_escaped_back(value, Seq::empty());
    assert(editor::escaped(value) + Seq::<char>::empty() =~= editor::escaped(value));
    assert(value + Seq::<char>::empty() =~= value);
}

/// An escaped text stays on one line.
pub proof fn escaped_text_has_no_line_ends(value: Seq<char>, i: int)
    requires
        0 <= i < editor::escaped(value).len(),
    ensures
        editor::escaped(value)[i] != '\n',
        editor::escaped(value)[i] != '\r',
    decreases value.len(),
{
    if value.len() > 0 {
        let front = editor::escaped(value.drop_last());
        if i < front.len() {
            escaped_text_has_no_line_ends(value.drop_last(), i);
        }
    }
}

proof fn lemma_first_of(contents: Seq<char>, c: char, place: int)
    requires
        0 <= place < contents.len(),
        contents[place] == c,
        forall|i: int| 0 <= i < place ==> contents[i] != c,
    ensures
        editor::first_of(contents, c) == place,
    decreases place,
{
    if place > 0 {
        assert(contents[0] != c);
        lemma_first_of(contents.skip(1), c, place - 1);
    }
}

/// Text without line ends.
pub open spec fn one_line(value: Seq<char>) -> bool {
    forall|i: int| 0 <= i < value.len() ==> (#[trigger] value[i]) != '\n' && value[i] != '\r'
}

pub proof fn lemma_setting(memory: MemoryModel, key: Seq<char>, value: Seq<char>, rest: Seq<char>)
    requires
        key.len() > 0,
        key.last() == '=',
        forall|i: int| 0 <= i < key.len() - 1 ==> (#[trigger] key[i]) != '=',
        one_line(key),
        one_line(value),
    ensures
        memory.after_lines(editor::setting_line(key, value) + rest) == memory.with(
            key.drop_last(),
            editor::unescaped(value),
        ).after_lines(rest),
{
    let whole = editor::setting_line(key, value) + rest;
    let line = key + value;
    let end = line.len() as int;
    assert forall|i: int| 0 <= i < end implies whole[i] != '\n' && whole[i] != '\r' by {
        if i < key.len() {
            assert(whole[i] == key[i]);
        } else {
            assert(whole[i] == value[i - key.len()]);
        }
    }
    assert(whole[end] == '\n');
    lemma_first_of(whole, '\n', end);
    assert(whole[end - 1] != '\r');
    assert(editor::line_before(whole, end) =~= line);
    assert(whole.skip(end + 1) =~= rest);
    let split = key.len() - 1;
    assert(line[split] == '=');
    assert forall|i: int| 0 <= i < split implies line[i] != '=' by {
        assert(line[i] == key[i]);
    }
    lemma_first_of(line, '=', split);
    assert(line.take(split) =~= key.drop_last());
    assert(line.skip(split + 1) =~= value);
}

pub proof fn lemma_plain(value: Seq<char>)
    requires
        forall|i: int| 0 <= i < value.len() ==> (#[trigger] value[i]) != '\\',
    ensures
        editor::unescaped(value) == value,
    decreases value.len(),
{
    if value.len() > 0 {
        assert(value[0] != '\\');
        assert forall|i: int| 0 <= i < value.skip(1).len() implies (#[trigger] value.skip(1)[i])
            != '\\' by {
            assert(value.skip(1)[i] == value[i + 1]);
        }
        lemma_plain(value.skip(1));
        assert(seq![value[0]] + value.skip(1) =~= value);
    }
}

/// A word of lower case letters.
pub open spec fn small_word(word: Seq<char>) -> bool {
    word.len() > 0 && forall|i: int| 0 <= i < word.len() ==> 'a' <= #[trigger] word[i] <= 'z'
}

proof fn lemma_small_word(word: Seq<char>)
    requires
        small_word(word),
    ensures
        one_line(word),
        editor::unescaped(word) == word,
        text::ascii_lower(text::trimmed(word)) == word,
{
    lemma_plain(word);
    assert(!text::is_space(word[0]));
    assert(!text::is_space(word.last()));
    assert(text::ascii_lower(word) =~= word);
}

proof fn lemma_keywords()
    ensures
        small_word("classic"@),
        small_word("normal"@),
        small_word("dark"@),
        small_word("light"@),
        "classic"@ != "normal"@,
        "dark"@ != "light"@,
{
    reveal_strlit("classic");
    reveal_strlit("normal");
    reveal_strlit("dark");
    reveal_strlit("light");
    assert("classic"@.len() == 7 && "normal"@.len() == 6);
    assert("dark"@.len() == 4 && "light"@.len() == 5);
}

/// The word written for a flavour or a theme names it again.
pub proof fn keywords_name_themselves(map_type: MapType, theme: EditorTheme)
    ensures
        MapType::named(map_type.keyword()) == Some(map_type),
        EditorTheme::named(theme.keyword()) == Some(theme),
{
    lemma_keywords();
    lemma_small_word(map_type.keyword());
    lemma_small_word(theme.keyword());
}

/// Settings that were written are read back as they were, whatever characters
/// the paths hold.
pub proof fn memory_round_trip(memory: MemoryModel)
    ensures
        MemoryModel::empty().after_lines(editor::formatted(memory)) == memory,
{
    reveal_strlit("version=");
    reveal_strlit("4");
    reveal_strlit("client_root=");
    reveal_strlit("geodata_path=");
    reveal_strlit("map_type=");
    reveal_strlit("theme=");
    reveal_strlit("client_root");
    reveal_strlit("geodata_path");
    reveal_strlit("map_type");
    reveal_strlit("theme");
    let root = editor::escaped(memory.client_root);
    let geodata = editor::escaped(memory.geodata_path);
    assert forall|i: int| 0 <= i < root.len() implies (#[trigger] root[i]) != '\n' && root[i]
        != '\r' by {
        escaped_text_has_no_line_ends(memory.client_root, i);
    }
    assert forall|i: int| 0 <= i < geodata.len() implies (#[trigger] geodata[i]) != '\n'
        && geodata[i] != '\r' by {
        escaped_text_has_no_line_ends(memory.geodata_path, i);
    }
    unescaping_undoes_escaping(memory.client_root);
    unescaping_undoes_escaping(memory.geodata_path);
    keywords_name_themselves(memory.map_type, memory.theme);
    lemma_keywords();
    lemma_small_word(memory.map_type.keyword());
    lemma_small_word(memory.theme.keyword());
    let empty = Seq::<char>::empty();
    let theme = editor::setting_line("theme="@, memory.theme.keyword());
    let map_type = editor::setting_line("map_type="@, memory.map_type.keyword());
    let path = editor::setting_line("geodata_path="@, geodata);
    let client = editor::setting_line("client_root="@, root);
    let version = editor::setting_line("version="@, "4"@);
    let start = MemoryModel::empty();
    assert(editor::formatted(memory) =~= version + (client + (path + (map_type + (theme + empty)))));
    lemma_setting(start, "version="@, "4"@, client + (path + (map_type + (theme + empty))));
    assert("version="@.drop_last() =~= seq!['v', 'e', 'r', 's', 'i', 'o', 'n']);
    assert("version="@.drop_last()[0] == 'v');
    assert("version="@.drop_last() != "client_root"@ && "version="@.drop_last() != "geodata_path"@
        && "version="@.drop_last() != "map_type"@ && "version="@.drop_last() != "theme"@) by {
        assert("client_root"@[0] == 'c' && "geodata_path"@[0] == 'g' && "map_type"@[0] == 'm'
            && "theme"@[0] == 't');
    }
    lemma_setting(start, "client_root="@, root, path + (map_type + (theme + empty)));
    assert("client_root="@.drop_last() =~= "client_root"@);
    let one = MemoryModel { client_root: memory.client_root, ..start };
    lemma_setting(one, "geodata_path="@, geodata, map_type + (theme + empty));
    assert("geodata_path="@.drop_last() =~= "geodata_path"@);
    assert("geodata_path"@ != "client_root"@) by {
        assert("geodata_path"@[0] == 'g' && "client_root"@[0] == 'c');
    }
    let two = MemoryModel { geodata_path: memory.geodata_path, ..one };
    lemma_setting(two, "map_type="@, memory.map_type.keyword(), theme + empty);
    assert("map_type="@.drop_last() =~= "map_type"@);
    assert("map_type"@ != "client_root"@ && "map_type"@ != "geodata_path"@) by {
        assert("map_type"@[0] == 'm' && "geodata_path"@[0] == 'g' && "client_root"@[0] == 'c');
    }
    let three = MemoryModel { map_type: memory.map_type, ..two };
    lemma_setting(three, "theme="@, memory.theme.keyword(), empty);
    assert("theme="@.drop_last() =~= "theme"@);
    assert("theme"@ != "client_root"@ && "theme"@ != "geodata_path"@ && "theme"@ != "map_type"@) by {
        assert("theme"@[0] == 't' && "map_type"@[0] == 'm' && "geodata_path"@[0] == 'g'
            && "client_root"@[0] == 'c');
    }
}

} // verus!
