//! Which file a path names, and what its name says of it.

use vstd::prelude::*;

use crate::editor;
use crate::error::ErrorModel;
use crate::l2j::storage;
use crate::l2j::storage::FormatModel;
use crate::path;
use crate::text;

verus! {

/// A name: text without separators that is neither `.` nor `..`.
pub open spec fn is_name(name: Seq<char>) -> bool {
    &&& name.len() > 0
    &&& forall|i: int| 0 <= i < name.len() ==> name[i] != '/' && #[trigger] name[i] != '\\'
    &&& name != seq!['.']
    &&& name != seq!['.', '.']
}

/// A directory that does not start with a separator: a relative one, or one on
/// a drive.
pub open spec fn is_directory(directory: Seq<char>) -> bool {
    directory.len() > 0 && directory[0] != '/' && directory[0] != '\\'
}

proof fn lemma_component(front: Seq<char>, name: Seq<char>)
    requires
        front.len() == 0 || path::is_separator(front.last()),
        forall|i: int| 0 <= i < name.len() ==> name[i] != '/' && #[trigger] name[i] != '\\',
    ensures
        path::component_start(front + name, false) == front.len(),
    decreases name.len(),
{
    let whole = front + name;
    if name.len() > 0 {
        assert(whole.last() == name[name.len() - 1]);
        assert(whole.drop_last() =~= front + name.drop_last());
        lemma_component(front, name.drop_last());
    } else {
        assert(whole =~= front);
        if front.len() > 0 {
            assert(path::is_break(front.last(), false));
        }
    }
}

proof fn lemma_last_name(front: Seq<char>, name: Seq<char>)
    requires
        front.len() == 0 || path::is_separator(front.last()),
        is_name(name),
    ensures
        path::last_name(front + name, false) == Some(name),
{
    let whole = front + name;
    lemma_component(front, name);
    assert(whole.skip(front.len() as int) =~= name);
    assert(whole.last() == name[name.len() - 1]);
}

/// A file in a directory is named by what stands behind the separator, whichever
/// of the two it is. A separator at the end changes nothing.
pub proof fn file_in_a_directory_is_named(directory: Seq<char>, separator: char, name: Seq<char>)
    requires
        is_directory(directory),
        separator == '/' || separator == '\\',
        is_name(name),
    ensures
        path::file_name_of(directory + seq![separator] + name) == Some(name),
        path::file_name_of(directory + seq![separator] + name + seq![separator]) == Some(name),
{
    let whole = directory + seq![separator] + name;
    let longer = whole + seq![separator];
    assert(whole[0] == directory[0] && longer[0] == directory[0]);
    let start = path::prefix_length(whole);
    assert(path::prefix_length(longer) == start);
    assert(start == 0 || start == 2);
    assert(start <= directory.len()) by {
        if start == 2 {
            assert(whole[1] == ':');
            if directory.len() == 1 {
                assert(whole[1] == separator);
            }
        }
    }
    let front = (directory + seq![separator]).skip(start);
    assert(front.last() == separator);
    assert(whole.skip(start) =~= front + name);
    let body = path::body_of(whole);
    let cut: int = if path::is_separator(whole.skip(start)[0]) {
        1
    } else {
        0
    };
    assert(body =~= front.skip(cut) + name);
    lemma_last_name(front.skip(cut), name);
    let longer_body = path::body_of(longer);
    assert(longer.skip(start) =~= front + name + seq![separator]);
    assert(longer.skip(start)[0] == whole.skip(start)[0]);
    assert(longer_body =~= front.skip(cut) + name + seq![separator]);
    assert(longer_body.last() == separator);
    assert(longer_body.drop_last() =~= front.skip(cut) + name);
}

/// A name alone is a path to the file of that name.
pub proof fn bare_name_is_named(name: Seq<char>)
    requires
        is_name(name),
        !(name.len() >= 2 && name[1] == ':'),
    ensures
        path::file_name_of(name) == Some(name),
{
    assert(path::prefix_length(name) == 0);
    assert(name.skip(0) =~= name);
    assert(Seq::<char>::empty() + name =~= name);
    lemma_last_name(Seq::empty(), name);
}

/// A drive is a letter and a colon, and no part of a name. Behind any other
/// character a colon is one like the others.
pub proof fn drives_are_letters(drive: char, name: Seq<char>)
    requires
        is_name(name),
        drive != '/' && drive != '\\',
    ensures
        path::file_name_of(seq![drive, ':'] + name) == Some(
            if 'a' <= drive <= 'z' || 'A' <= drive <= 'Z' {
                name
            } else {
                seq![drive, ':'] + name
            },
        ),
{
    let whole = seq![drive, ':'] + name;
    let letter = 'a' <= drive <= 'z' || 'A' <= drive <= 'Z';
    assert(whole[0] == drive && whole[1] == ':');
    assert(path::prefix_length(whole) == if letter {
        2int
    } else {
        0
    });
    if letter {
        assert(whole.skip(2) =~= name);
        assert(path::body_of(whole) =~= name);
        lemma_last_name(Seq::empty(), name);
        assert(Seq::<char>::empty() + name =~= name);
    } else {
        assert(whole.skip(0) =~= whole);
        assert(path::body_of(whole) =~= whole);
        assert forall|i: int| 0 <= i < whole.len() implies whole[i] != '/' && #[trigger] whole[i]
            != '\\' by {
            if i >= 2 {
                assert(whole[i] == name[i - 2]);
            }
        }
        lemma_last_name(Seq::empty(), whole);
        assert(Seq::<char>::empty() + whole =~= whole);
    }
}

proof fn lemma_word_end(front: Seq<char>, word: Seq<char>, back: Seq<char>, at: int)
    requires
        0 <= at <= word.len(),
        forall|i: int| 0 <= i < word.len() ==> word[i] != '/' && #[trigger] word[i] != '\\',
        back.len() == 0 || back[0] == '\\',
    ensures
        path::component_end(front + word + back, front.len() + at, false) == front.len()
            + word.len(),
    decreases word.len() - at,
{
    let whole = front + word + back;
    if at < word.len() {
        assert(whole[front.len() + at] == word[at]);
        lemma_word_end(front, word, back, at + 1);
    } else if back.len() > 0 {
        assert(whole[front.len() + at] == back[0]);
    }
}

/// A share of a server is no file; what lies in it is.
pub proof fn shares_are_no_files(server: Seq<char>, share: Seq<char>, name: Seq<char>)
    requires
        is_name(server) && is_name(share) && is_name(name),
        server != seq!['?'],
    ensures
        ({
            let place = seq!['\\', '\\'] + server + seq!['\\'] + share;
            &&& path::file_name_of(place) is None
            &&& path::file_name_of(place + seq!['\\'] + name) == Some(name)
        }),
{
    let place = seq!['\\', '\\'] + server + seq!['\\'] + share;
    let whole = place + seq!['\\'] + name;
    let two = seq!['\\', '\\'];
    assert(place[2] == server[0] && whole[2] == server[0]);
    if server.len() == 1 {
        assert(server =~= seq![server[0]]);
        assert(server[0] != '?' && server[0] != '.');
    } else {
        assert(place[3] == server[1] && whole[3] == server[1]);
    }
    lemma_word_end(two, server, seq!['\\'] + share, 0);
    assert(place =~= two + server + (seq!['\\'] + share));
    lemma_word_end(two, server, seq!['\\'] + share + seq!['\\'] + name, 0);
    assert(whole =~= two + server + (seq!['\\'] + share + seq!['\\'] + name));
    let front = two + server + seq!['\\'];
    lemma_word_end(front, share, Seq::empty(), 0);
    assert(place =~= front + share + Seq::<char>::empty());
    lemma_word_end(front, share, seq!['\\'] + name, 0);
    assert(whole =~= front + share + (seq!['\\'] + name));
    assert(path::prefix_length(place) == place.len());
    assert(path::prefix_length(whole) == place.len());
    assert(path::body_of(place) =~= Seq::<char>::empty());
    assert(whole.skip(place.len() as int) =~= seq!['\\'] + name);
    assert(path::body_of(whole) =~= name);
    lemma_last_name(Seq::empty(), name);
    assert(Seq::<char>::empty() + name =~= name);
}

proof fn lemma_last_dot(front: Seq<char>, extension: Seq<char>)
    requires
        forall|i: int| 0 <= i < extension.len() ==> #[trigger] extension[i] != '.',
    ensures
        path::last_dot(front + seq!['.'] + extension) == front.len(),
    decreases extension.len(),
{
    let name = front + seq!['.'] + extension;
    if extension.len() > 0 {
        assert(name.last() == extension[extension.len() - 1]);
        assert(name.drop_last() =~= front + seq!['.'] + extension.drop_last());
        lemma_last_dot(front, extension.drop_last());
    } else {
        assert(name.last() == '.');
    }
}

/// A name is its stem, a dot and its extension. Only the last dot counts, and
/// none at the start.
pub proof fn names_have_stems_and_extensions(front: Seq<char>, extension: Seq<char>)
    requires
        forall|i: int| 0 <= i < extension.len() ==> #[trigger] extension[i] != '.',
    ensures
        ({
            let name = front + seq!['.'] + extension;
            if front.len() > 0 {
                path::stem_of(name) == front && path::extension_of(name) == Some(extension)
            } else {
                path::stem_of(name) == name && path::extension_of(name) is None
            }
        }),
{
    let name = front + seq!['.'] + extension;
    lemma_last_dot(front, extension);
    assert(name.take(front.len() as int) =~= front);
    assert(name.skip(front.len() as int + 1) =~= extension);
}

/// Letters from A to Z and from a to z are told apart by their case only.
pub open spec fn same_letter(a: char, b: char) -> bool {
    a == b || ('a' <= a <= 'z' && b as int == a as int - 32) || ('a' <= b <= 'z' && a as int == b
        as int - 32)
}

/// Text that says a word, in upper or lower case.
pub open spec fn says(value: Seq<char>, word: Seq<char>) -> bool {
    value.len() == word.len() && forall|i: int|
        0 <= i < word.len() ==> same_letter(#[trigger] value[i], word[i])
}

pub proof fn lemma_says(value: Seq<char>, word: Seq<char>)
    requires
        forall|i: int| 0 <= i < word.len() ==> !('A' <= #[trigger] word[i] <= 'Z'),
    ensures
        (text::ascii_lower(value) == word) == says(value, word),
{
    let low = text::ascii_lower(value);
    if says(value, word) {
        assert forall|i: int| 0 <= i < word.len() implies low[i] == word[i] by {
            assert(same_letter(value[i], word[i]));
            assert(low[i] == text::lower(value[i]));
        }
        assert(low =~= word);
    }
    if low == word {
        assert forall|i: int| 0 <= i < word.len() implies same_letter(
            #[trigger] value[i],
            word[i],
        ) by {
            assert(low[i] == text::lower(value[i]));
        }
    }
}

spec fn conv_ending() -> Seq<char> {
    seq!['_', 'c', 'o', 'n', 'v', '.', 'd', 'a', 't']
}

proof fn lemma_conv_ending()
    ensures
        "_conv.dat"@ == conv_ending(),
        conv_ending().len() == 9,
        forall|i: int| 0 <= i < 9 ==> !('A' <= #[trigger] conv_ending()[i] <= 'Z'),
{
    reveal_strlit("_conv.dat");
    assert("_conv.dat"@ =~= conv_ending());
}

/// Whether a name ends in `_conv.dat`, in upper or lower case.
pub open spec fn ends_as_conv(name: Seq<char>) -> bool {
    name.len() >= 9 && says(
        name.skip(name.len() - 9),
        seq!['_', 'c', 'o', 'n', 'v', '.', 'd', 'a', 't'],
    )
}

proof fn lemma_ends_as_conv(name: Seq<char>)
    ensures
        text::ends_with(text::ascii_lower(name), "_conv.dat"@) == ends_as_conv(name),
{
    lemma_conv_ending();
    if name.len() >= 9 {
        lemma_says(name.skip(name.len() - 9), conv_ending());
        assert(text::ascii_lower(name).skip(name.len() - 9) =~= text::ascii_lower(
            name.skip(name.len() - 9),
        ));
    }
}

/// The region of a geodata file is its name without the ending: `_conv.dat` in
/// any case, or else what stands behind the last dot. A file without a region
/// has none.
pub proof fn region_is_the_name_without_its_ending(
    directory: Seq<char>,
    separator: char,
    region: Seq<char>,
    extension: Seq<char>,
    ending: Seq<char>,
)
    requires
        is_directory(directory),
        separator == '/' || separator == '\\',
        forall|i: int| 0 <= i < extension.len() ==> #[trigger] extension[i] != '.',
        is_name(region + seq!['.'] + extension),
        !ends_as_conv(region + seq!['.'] + extension),
        says(ending, seq!['_', 'c', 'o', 'n', 'v', '.', 'd', 'a', 't']),
        is_name(region + ending),
    ensures
        region.len() > 0 ==> editor::region_of(
            directory + seq![separator] + (region + seq!['.'] + extension),
        ) == Some(region),
        editor::region_of(directory + seq![separator] + (region + ending)) == if region.len() > 0 {
            Some(region)
        } else {
            None
        },
{
    let name = region + seq!['.'] + extension;
    file_in_a_directory_is_named(directory, separator, name);
    names_have_stems_and_extensions(region, extension);
    lemma_ends_as_conv(name);
    let other = region + ending;
    file_in_a_directory_is_named(directory, separator, other);
    lemma_ends_as_conv(other);
    assert(other.skip(other.len() - 9) =~= ending);
    assert(other.take(other.len() - 9) =~= region);
}

/// The name of a file tells its format, in upper or lower case: `_conv.dat`
/// behind eighteen bytes of header, `.l2g` behind four, `.l2j` without any. Other
/// names are refused, and so are files shorter than their header.
pub proof fn names_tell_formats(
    directory: Seq<char>,
    separator: char,
    front: Seq<char>,
    extension: Seq<char>,
    bytes: Seq<u8>,
)
    requires
        is_directory(directory),
        separator == '/' || separator == '\\',
        front.len() > 0,
        forall|i: int| 0 <= i < extension.len() ==> #[trigger] extension[i] != '.',
        is_name(front + seq!['.'] + extension),
    ensures
        ({
            let name = front + seq!['.'] + extension;
            let opened = storage::decoded_file(directory + seq![separator] + name, bytes);
            if ends_as_conv(name) {
                &&& opened is Ok <==> bytes.len() >= 18
                &&& opened is Ok ==> opened->Ok_0.0 == FormatModel::ConvDat(bytes.take(18))
                    && opened->Ok_0.1 == bytes.skip(18)
            } else if says(extension, seq!['l', '2', 'j']) {
                opened == Ok::<(FormatModel, Seq<u8>), ErrorModel>((FormatModel::L2j, bytes))
            } else if says(extension, seq!['l', '2', 'g']) {
                &&& opened is Ok <==> bytes.len() >= 4
                &&& opened is Ok ==> opened->Ok_0.0 == FormatModel::L2g(bytes.take(4))
            } else {
                opened is Err
            }
        }),
{
    let name = front + seq!['.'] + extension;
    file_in_a_directory_is_named(directory, separator, name);
    names_have_stems_and_extensions(front, extension);
    lemma_ends_as_conv(name);
    reveal_strlit("l2j");
    reveal_strlit("l2g");
    let j = seq!['l', '2', 'j'];
    let g = seq!['l', '2', 'g'];
    assert("l2j"@ =~= j);
    assert("l2g"@ =~= g);
    assert(text::ascii_lower(j) =~= j);
    assert(text::ascii_lower(g) =~= g);
    lemma_says(extension, j);
    lemma_says(extension, g);
}

/// A document is saved under names of its own format only, in upper or lower case.
pub proof fn names_keep_formats(
    directory: Seq<char>,
    separator: char,
    front: Seq<char>,
    extension: Seq<char>,
    header: Seq<u8>,
)
    requires
        is_directory(directory),
        separator == '/' || separator == '\\',
        front.len() > 0,
        forall|i: int| 0 <= i < extension.len() ==> #[trigger] extension[i] != '.',
        is_name(front + seq!['.'] + extension),
    ensures
        ({
            let name = front + seq!['.'] + extension;
            let file = directory + seq![separator] + name;
            &&& FormatModel::L2j.accepts(file) == says(extension, seq!['l', '2', 'j'])
            &&& FormatModel::L2g(header).accepts(file) == says(extension, seq!['l', '2', 'g'])
            &&& FormatModel::ConvDat(header).accepts(file) == ends_as_conv(name)
        }),
{
    let name = front + seq!['.'] + extension;
    file_in_a_directory_is_named(directory, separator, name);
    names_have_stems_and_extensions(front, extension);
    lemma_ends_as_conv(name);
    reveal_strlit("l2j");
    reveal_strlit("l2g");
    let j = seq!['l', '2', 'j'];
    let g = seq!['l', '2', 'g'];
    assert("l2j"@ =~= j);
    assert("l2g"@ =~= g);
    assert(text::ascii_lower(j) =~= j);
    assert(text::ascii_lower(g) =~= g);
    lemma_says(extension, j);
    lemma_says(extension, g);
}

/// The body of an `.l2g` file is a chain: each byte is the plain one combined by
/// exclusive or with the plain one before it. The first one is combined with the
/// four bytes of the header and 42. Behind the header 81 41 41 AB the body is
/// plain.
pub proof fn l2g_bodies_are_chained(header: Seq<u8>, body: Seq<u8>, i: int)
    requires
        header.len() == 4,
        0 <= i < body.len(),
    ensures
        ({
            let plain = storage::opened_body(header, body);
            &&& plain.len() == body.len()
            &&& if header[0] == 0x81 && header[1] == 0x41 && header[2] == 0x41 && header[3] == 0xab {
                plain[i] == body[i]
            } else if i == 0 {
                plain[0] == body[0] ^ (header[0] ^ header[1] ^ header[2] ^ header[3] ^ 42)
            } else {
                plain[i] == body[i] ^ plain[i - 1]
            }
        }),
{
    let plain_header = storage::plain_header();
    if header[0] == 0x81 && header[1] == 0x41 && header[2] == 0x41 && header[3] == 0xab {
        assert(header =~= plain_header);
    } else {
        assert(header != plain_header);
        lemma_chain(storage::cipher_key(header), body, i);
    }
}

proof fn lemma_chain(key: u8, body: Seq<u8>, i: int)
    requires
        0 <= i < body.len(),
    ensures
        storage::deciphered(key, body).len() == body.len(),
        storage::deciphered(key, body)[i] == body[i] ^ if i == 0 {
            key
        } else {
            storage::deciphered(key, body)[i - 1]
        },
    decreases body.len(),
{
    let front = body.drop_last();
    lemma_chain_length(key, body);
    lemma_chain_length(key, front);
    if i < body.len() - 1 {
        lemma_chain(key, front, i);
    }
}

proof fn lemma_chain_length(key: u8, body: Seq<u8>)
    ensures
        storage::deciphered(key, body).len() == body.len(),
    decreases body.len(),
{
    if body.len() > 0 {
        lemma_chain_length(key, body.drop_last());
    }
}

/// A device is no file; what lies behind it is.
pub proof fn devices_are_no_files(device: Seq<char>, name: Seq<char>)
    requires
        is_name(device) && is_name(name),
    ensures
        ({
            let place = seq!['\\', '\\', '.', '\\'] + device;
            &&& path::file_name_of(place) is None
            &&& path::file_name_of(place + seq!['\\'] + name) == Some(name)
        }),
{
    let front = seq!['\\', '\\', '.', '\\'];
    let place = front + device;
    let whole = place + seq!['\\'] + name;
    lemma_word_end(front, device, Seq::empty(), 0);
    assert(place =~= front + device + Seq::<char>::empty());
    lemma_word_end(front, device, seq!['\\'] + name, 0);
    assert(whole =~= front + device + (seq!['\\'] + name));
    assert(path::body_of(place) =~= Seq::<char>::empty());
    assert(whole.skip(place.len() as int) =~= seq!['\\'] + name);
    assert(path::body_of(whole) =~= name);
    lemma_last_name(Seq::empty(), name);
    assert(Seq::<char>::empty() + name =~= name);
}

} // verus!
