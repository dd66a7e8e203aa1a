//! Packages byte by byte: how numbers, names and tables are read, and how an
//! encrypted file becomes plain.

use vstd::prelude::*;

use crate::path;
use crate::unreal::package;
use crate::unreal::package::{ArchiveModel, ExportModel, ImportModel};
use crate::unreal::reader;

verus! {

/// Four bytes from a place on, the low one first, as a signed number.
pub open spec fn signed_at(bytes: Seq<u8>, at: int) -> int {
    bytes[at] + 256 * bytes[at + 1] + 65_536 * bytes[at + 2] + 16_777_216 * (if bytes[at + 3]
        < 128 {
        bytes[at + 3] as int
    } else {
        bytes[at + 3] - 256
    })
}

/// Four bytes from a place on, the low one first.
pub open spec fn unsigned_at(bytes: Seq<u8>, at: int) -> int {
    bytes[at] + 256 * bytes[at + 1] + 65_536 * bytes[at + 2] + 16_777_216 * bytes[at + 3]
}

/// Numbers stand with their low byte first. A vector is three of four bytes, and
/// a rotation three signed ones: pitch, yaw and roll.
pub proof fn numbers_have_their_low_byte_first(bytes: Seq<u8>, at: int)
    requires
        0 <= at,
        at + 12 <= bytes.len(),
    ensures
        reader::byte_at(bytes, at)->Ok_0 == (bytes[at], at + 1),
        reader::u16_at(bytes, at)->Ok_0.0 == bytes[at] + 256 * bytes[at + 1],
        reader::u16_at(bytes, at)->Ok_0.1 == at + 2,
        reader::i16_at(bytes, at)->Ok_0.0 == bytes[at] + 256 * (if bytes[at + 1] < 128 {
            bytes[at + 1] as int
        } else {
            bytes[at + 1] - 256
        }),
        reader::u32_at(bytes, at)->Ok_0.0 == unsigned_at(bytes, at),
        reader::u32_at(bytes, at)->Ok_0.1 == at + 4,
        reader::i32_at(bytes, at)->Ok_0.0 == signed_at(bytes, at),
        reader::i32_at(bytes, at)->Ok_0.1 == at + 4,
        reader::vector_at(bytes, at)->Ok_0.0.x == unsigned_at(bytes, at),
        reader::vector_at(bytes, at)->Ok_0.0.y == unsigned_at(bytes, at + 4),
        reader::vector_at(bytes, at)->Ok_0.0.z == unsigned_at(bytes, at + 8),
        reader::vector_at(bytes, at)->Ok_0.1 == at + 12,
        reader::rotator_at(bytes, at)->Ok_0.0.pitch == signed_at(bytes, at),
        reader::rotator_at(bytes, at)->Ok_0.0.yaw == signed_at(bytes, at + 4),
        reader::rotator_at(bytes, at)->Ok_0.0.roll == signed_at(bytes, at + 8),
{
}

/// The index of an array element is its byte below 128, and else two bytes.
pub proof fn element_indices_take_a_byte_or_two(bytes: Seq<u8>, at: int)
    requires
        0 <= at,
        at + 2 <= bytes.len(),
    ensures
        bytes[at] < 128 ==> reader::array_index_at(bytes, at)->Ok_0 == (bytes[at] as u32, at + 1),
        bytes[at] >= 128 ==> reader::array_index_at(bytes, at)->Ok_0.0 == bytes[at] + 256 * bytes[at
            + 1] && reader::array_index_at(bytes, at)->Ok_0.1 == at + 2,
{
}

/// The bytes behind the first one of a compact index: seven bits each, the low
/// ones first, and the high bit where another one follows.
pub open spec fn continued(magnitude: int) -> Seq<u8>
    decreases magnitude,
{
    if magnitude < 128 {
        seq![magnitude as u8]
    } else {
        seq![(128 + magnitude % 128) as u8] + continued(magnitude / 128)
    }
}

/// A number as a compact index: the sign, whether more follows, and six bits in
/// the first byte.
pub open spec fn as_index(value: int) -> Seq<u8> {
    let magnitude = if value < 0 {
        -value
    } else {
        value
    };
    let sign: int = if value < 0 {
        128
    } else {
        0
    };
    if magnitude < 64 {
        seq![(sign + magnitude) as u8]
    } else {
        seq![(sign + 64 + magnitude % 64) as u8] + continued(magnitude / 64)
    }
}

proof fn lemma_continued(front: Seq<u8>, magnitude: int, back: Seq<u8>, digits: nat, total: int)
    requires
        0 <= magnitude,
        digits <= 3,
        digits == 0 ==> magnitude < 268_435_456,
        digits == 1 ==> magnitude < 2_097_152,
        digits == 2 ==> magnitude < 16_384,
        digits == 3 ==> magnitude < 128,
    ensures
        ({
            let bytes = front + continued(magnitude) + back;
            reader::magnitude_at(bytes, front.len() as int, digits, total) == reader::Parsed::<
                int,
            >::Ok(
                (
                    total + magnitude * reader::weight(digits),
                    (front.len() + continued(magnitude).len()) as int,
                ),
            )
        }),
    decreases magnitude,
{
    let bytes = front + continued(magnitude) + back;
    let at = front.len() as int;
    if magnitude < 128 {
        assert(bytes[at] == magnitude);
    } else {
        let first = (128 + magnitude % 128) as u8;
        let rest = continued(magnitude / 128);
        assert(bytes[at] == first);
        let longer = front.push(first);
        assert(bytes =~= longer + rest + back);
        let sum = total + magnitude % 128 * reader::weight(digits);
        lemma_continued(longer, magnitude / 128, back, digits + 1, sum);
        let w = reader::weight(digits);
        assert(reader::weight(digits + 1) == 128 * w);
        assert(magnitude % 128 * w + magnitude / 128 * (128 * w) == magnitude * w)
            by (nonlinear_arith)
            requires
                magnitude == 128 * (magnitude / 128) + magnitude % 128,
        ;
    }
}

/// A number that is written as a compact index is read back, whatever stands
/// around it.
pub proof fn compact_indices_are_read_back(front: Seq<u8>, value: int, back: Seq<u8>)
    requires
        -2_147_483_648 <= value <= 2_147_483_647,
    ensures
        reader::index_at(front + as_index(value) + back, front.len() as int)
            == reader::Parsed::<i32>::Ok(
            (value as i32, (front.len() + as_index(value).len()) as int),
        ),
{
    let magnitude = if value < 0 {
        -value
    } else {
        value
    };
    let sign: int = if value < 0 {
        128
    } else {
        0
    };
    let bytes = front + as_index(value) + back;
    let at = front.len() as int;
    if magnitude < 64 {
        assert(bytes[at] == sign + magnitude);
    } else {
        let first = (sign + 64 + magnitude % 64) as u8;
        assert(bytes[at] == first);
        let longer = front.push(first);
        assert(bytes =~= longer + continued(magnitude / 64) + back);
        lemma_continued(longer, magnitude / 64, back, 0, magnitude % 64);
        assert(reader::weight(0) == 64);
        assert(magnitude % 64 + magnitude / 64 * 64 == magnitude);
    }
}

/// A string is its length and its bytes; a zero at its end does not count. One
/// with a negative length, or that is no text, is refused.
pub proof fn strings_follow_their_length(front: Seq<u8>, content: Seq<u8>, back: Seq<u8>)
    requires
        content.len() <= 2_147_483_646,
        vstd::utf8::valid_utf8(content),
        content.len() > 0 ==> content.last() != 0,
    ensures
        ({
            let plain = front + as_index(content.len() as int) + (content + back);
            let zeroed = front + as_index(content.len() as int + 1) + (content + seq![0u8] + back);
            &&& reader::string_at(plain, front.len() as int) == reader::Parsed::<Seq<char>>::Ok(
                (
                    vstd::utf8::decode_utf8(content),
                    (front.len() + as_index(content.len() as int).len() + content.len()) as int,
                ),
            )
            &&& reader::string_at(zeroed, front.len() as int) == reader::Parsed::<Seq<char>>::Ok(
                (
                    vstd::utf8::decode_utf8(content),
                    (front.len() + as_index(content.len() as int + 1).len() + content.len() + 1) as int,
                ),
            )
        }),
{
    let plain = front + as_index(content.len() as int) + (content + back);
    let zeroed = front + as_index(content.len() as int + 1) + (content + seq![0u8] + back);
    compact_indices_are_read_back(front, content.len() as int, content + back);
    compact_indices_are_read_back(front, content.len() as int + 1, content + seq![0u8] + back);
    let start = (front.len() + as_index(content.len() as int).len()) as int;
    assert(plain.subrange(start, start + content.len()) =~= content);
    let other = (front.len() + as_index(content.len() as int + 1).len()) as int;
    let longer = content + seq![0u8];
    assert(zeroed.subrange(other, other + content.len() + 1) =~= longer);
    assert(longer.last() == 0);
    assert(longer.drop_last() =~= content);
}

/// Strings with a negative length are refused.
pub proof fn negative_lengths_are_refused(front: Seq<u8>, length: int, back: Seq<u8>)
    requires
        -2_147_483_648 <= length < 0,
    ensures
        reader::string_at(front + as_index(length) + back, front.len() as int) is Err,
{
    compact_indices_are_read_back(front, length, back);
}

/// A file encrypted in version 111 is plain behind its 28 bytes of header, each
/// byte combined by exclusive or with AC.
pub proof fn version_111_has_a_fixed_key(path: Seq<char>, bytes: Seq<u8>, i: int)
    requires
        package::decrypted(path, bytes) is Ok,
        bytes[22] == 49 && bytes[24] == 49 && bytes[26] == 49,
        0 <= i < bytes.len() - 28,
    ensures
        package::decrypted(path, bytes)->Ok_0.len() == bytes.len() - 28,
        package::decrypted(path, bytes)->Ok_0[i] == bytes[28 + i] ^ 0xac,
{
}

/// The key of version 121 is the sum of the bytes of the file's name, the letters
/// A to Z in lower case, without what goes beyond a byte.
pub proof fn version_121_has_the_key_of_its_name(
    path: Seq<char>,
    name: Seq<char>,
    bytes: Seq<u8>,
    key: u8,
    i: int,
)
    requires
        package::decrypted(path, bytes) is Ok,
        bytes[22] == 49 && bytes[24] == 50 && bytes[26] == 49,
        path::file_name_of(path) == Some(name),
        key == package::name_sum(vstd::utf8::encode_utf8(name)) % 256,
        0 <= i < bytes.len() - 28,
    ensures
        package::decrypted(path, bytes)->Ok_0.len() == bytes.len() - 28,
        package::decrypted(path, bytes)->Ok_0[i] == bytes[28 + i] ^ key,
{
}

/// Every byte of a name adds itself to the key, a capital letter its small one.
pub proof fn names_add_up(front: Seq<u8>, byte: u8)
    ensures
        package::name_sum(front.push(byte)) == package::name_sum(front) + if 65 <= byte <= 90 {
            byte + 32
        } else {
            byte as int
        },
        package::name_sum(Seq::<u8>::empty()) == 0,
{
    assert(front.push(byte).drop_last() =~= front);
}

/// Only files that say `Lineage2Ver` in two-byte letters, with the number 111 or
/// 121 behind it, are decrypted.
pub proof fn other_files_are_refused(path: Seq<char>, bytes: Seq<u8>)
    requires
        package::decrypted(path, bytes) is Ok,
    ensures
        bytes.len() >= 28,
        bytes.take(22) == seq![
            76u8, 0u8, 105u8, 0u8, 110u8, 0u8, 101u8, 0u8, 97u8, 0u8, 103u8, 0u8, 101u8, 0u8, 50u8,
            0u8, 86u8, 0u8, 101u8, 0u8, 114u8, 0u8,
        ],
        bytes[22] == 49 || bytes[22] == 43,
        bytes[24] == 49 || bytes[24] == 50,
        bytes[26] == 49,
{
    let expected = seq![
        76u8, 0u8, 105u8, 0u8, 110u8, 0u8, 101u8, 0u8, 97u8, 0u8, 103u8, 0u8, 101u8, 0u8, 50u8,
        0u8, 86u8, 0u8, 101u8, 0u8, 114u8, 0u8,
    ];
    assert(package::banner() =~= expected);
}

/// A package starts with C1 83 2A 9E, its two versions and the counts and places
/// of its tables. It has as many names, imports and exports as its header says,
/// at most ten million of each.
pub proof fn headers_say_what_follows(name: Seq<char>, data: Seq<u8>)
    requires
        package::archive_in(name, data) is Ok,
    ensures
        ({
            let archive = package::archive_in(name, data)->Ok_0;
            &&& data.len() >= 56
            &&& data[0] == 0xc1 && data[1] == 0x83 && data[2] == 0x2a && data[3] == 0x9e
            &&& archive.name == name
            &&& archive.data == data
            &&& archive.file_version == data[4] + 256 * (if data[5] < 128 {
                data[5] as int
            } else {
                data[5] - 256
            })
            &&& archive.license_version == data[6] + 256 * (if data[7] < 128 {
                data[7] as int
            } else {
                data[7] - 256
            })
            &&& archive.names.len() == signed_at(data, 12)
            &&& archive.exports.len() == signed_at(data, 20)
            &&& archive.imports.len() == signed_at(data, 28)
            &&& archive.names.len() <= 10_000_000
            &&& archive.exports.len() <= 10_000_000
            &&& archive.imports.len() <= 10_000_000
            &&& 0 <= signed_at(data, 16) <= data.len()
            &&& 0 <= signed_at(data, 24) <= data.len()
            &&& 0 <= signed_at(data, 32) <= data.len()
        }),
{
    let archive = package::archive_in(name, data)->Ok_0;
    assert(package::header_number(data, 12) == signed_at(data, 12));
    assert(package::header_number(data, 20) == signed_at(data, 20));
    assert(package::header_number(data, 28) == signed_at(data, 28));
    assert(package::header_number(data, 0) == signed_at(data, 0));
    assert(package::PACKAGE_MAGIC == -1_641_380_927);
    assert(data[3] == 0x9e && data[2] == 0x2a && data[1] == 0x83 && data[0] == 0xc1) by {
        assert(signed_at(data, 0) == -1_641_380_927);
    }
    let names_start = signed_at(data, 16);
    lemma_names(data, names_start, signed_at(data, 12) as nat, Seq::empty());
    lemma_imports(
        archive.names,
        data,
        signed_at(data, 32),
        signed_at(data, 28) as nat,
        Seq::empty(),
    );
    lemma_exports(
        archive.names,
        archive.imports,
        data,
        signed_at(data, 24),
        signed_at(data, 20) as nat,
        Seq::empty(),
    );
}

/// A name table: each name is a string behind the flags of the one before.
pub open spec fn lists_names(names: Seq<Seq<char>>, places: Seq<int>, data: Seq<u8>) -> bool {
    &&& places.len() == names.len() + 1
    &&& forall|i: int|
        0 <= i < names.len() ==> reader::string_at(data, places[i]) == reader::Parsed::<
            Seq<char>,
        >::Ok((#[trigger] names[i], places[i + 1] - 4))
}

proof fn lemma_names(data: Seq<u8>, pos: int, count: nat, done: Seq<Seq<char>>) -> (places: Seq<int>)
    ensures
        package::names_from(data, pos, count, done) matches Ok((names, end)) ==> {
            &&& names.len() == done.len() + count
            &&& names.take(done.len() as int) == done
            &&& lists_names(names.skip(done.len() as int), places, data)
            &&& places[0] == pos
        },
    decreases count,
{
    if package::names_from(data, pos, count, done) is Ok {
        let names = package::names_from(data, pos, count, done)->Ok_0.0;
        if count == 0 {
            assert(names.take(done.len() as int) =~= done);
            seq![pos]
        } else {
            let (name, flags) = reader::string_at(data, pos)->Ok_0;
            let next = flags + 4;
            let rest = lemma_names(data, next, (count - 1) as nat, done.push(name));
            let places = seq![pos] + rest;
            let n = done.len() as int;
            let later = names.skip(n + 1);
            assert(names.take(n + 1) == done.push(name));
            assert(names[n] == names.take(n + 1)[n]);
            assert(names[n] == name);
            assert(names.take(n) =~= names.take(n + 1).take(n));
            assert(done.push(name).take(n) =~= done);
            let here = names.skip(n);
            assert forall|i: int| 0 <= i < here.len() implies reader::string_at(data, places[i])
                == reader::Parsed::<Seq<char>>::Ok((#[trigger] here[i], places[i + 1] - 4)) by {
                if i > 0 {
                    assert(here[i] == later[i - 1]);
                    assert(places[i] == rest[i - 1]);
                    assert(places[i + 1] == rest[i]);
                }
            }
            places
        }
    } else {
        Seq::empty()
    }
}

/// The names of a package stand where its header says, one behind the other, each
/// with four bytes of flags behind it.
pub proof fn names_stand_in_a_row(name: Seq<char>, data: Seq<u8>) -> (places: Seq<int>)
    requires
        package::archive_in(name, data) is Ok,
    ensures
        lists_names(package::archive_in(name, data)->Ok_0.names, places, data),
        places[0] == signed_at(data, 16),
{
    let archive = package::archive_in(name, data)->Ok_0;
    let start = signed_at(data, 16);
    assert(package::header_number(data, 16) == start);
    let places = lemma_names(
        data,
        start,
        package::header_number(data, 12) as nat,
        Seq::empty(),
    );
    assert(archive.names.skip(0) =~= archive.names);
    places
}

/// An import as bytes have it: the number of a name that is passed over, that of
/// its class, four bytes with its package, and the number of its own name.
#[verifier::opaque]
pub open spec fn reads_import(
    names: Seq<Seq<char>>,
    data: Seq<u8>,
    at: int,
    entry: ImportModel,
    end: int,
) -> bool {
    let (_, class_at) = reader::index_at(data, at)->Ok_0;
    let (class, package_at) = reader::index_at(data, class_at)->Ok_0;
    let (own, behind) = reader::index_at(data, package_at + 4)->Ok_0;
    &&& reader::index_at(data, at) is Ok
    &&& reader::index_at(data, class_at) is Ok
    &&& reader::index_at(data, package_at + 4) is Ok
    &&& 0 <= class < names.len() && entry.class_name == names[class as int]
    &&& entry.package_index == signed_at(data, package_at)
    &&& 0 <= own < names.len() && entry.object_name == names[own as int]
    &&& end == behind
}

proof fn lemma_import(names: Seq<Seq<char>>, data: Seq<u8>, at: int)
    ensures
        package::import_at(names, data, at) matches Ok((entry, end)) ==> reads_import(
            names,
            data,
            at,
            entry,
            end,
        ),
{
    reveal(reads_import);
}

proof fn lemma_imports(
    names: Seq<Seq<char>>,
    data: Seq<u8>,
    pos: int,
    count: nat,
    done: Seq<ImportModel>,
) -> (places: Seq<int>)
    ensures
        package::imports_from(names, data, pos, count, done) matches Ok((entries, end)) ==> {
            &&& entries.len() == done.len() + count
            &&& entries.take(done.len() as int) == done
            &&& places.len() == count + 1
            &&& places[0] == pos
            &&& forall|i: int|
                0 <= i < count ==> reads_import(
                    names,
                    data,
                    #[trigger] places[i],
                    entries[done.len() + i],
                    places[i + 1],
                )
        },
    decreases count,
{
    if package::imports_from(names, data, pos, count, done) is Ok {
        let entries = package::imports_from(names, data, pos, count, done)->Ok_0.0;
        if count == 0 {
            assert(entries.take(done.len() as int) =~= done);
            seq![pos]
        } else {
            lemma_import(names, data, pos);
            let (entry, next) = package::import_at(names, data, pos)->Ok_0;
            let rest = lemma_imports(names, data, next, (count - 1) as nat, done.push(entry));
            let places = seq![pos] + rest;
            let n = done.len() as int;
            assert(entries[n] == entries.take(n + 1)[n]);
            assert(entries.take(n) =~= entries.take(n + 1).take(n));
            assert(done.push(entry).take(n) =~= done);
            assert forall|i: int| 0 <= i < count implies reads_import(
                names,
                data,
                #[trigger] places[i],
                entries[done.len() + i],
                places[i + 1],
            ) by {
                if i > 0 {
                    assert(places[i] == rest[i - 1]);
                    assert(places[i + 1] == rest[i]);
                    assert(reads_import(
                        names,
                        data,
                        rest[i - 1],
                        entries[done.push(entry).len() + (i - 1)],
                        rest[i - 1 + 1],
                    ));
                }
            }
            places
        }
    } else {
        Seq::empty()
    }
}

/// The imports of a package stand where its header says, one behind the other.
pub proof fn imports_stand_in_a_row(name: Seq<char>, data: Seq<u8>) -> (places: Seq<int>)
    requires
        package::archive_in(name, data) is Ok,
    ensures
        ({
            let archive = package::archive_in(name, data)->Ok_0;
            &&& places.len() == archive.imports.len() + 1
            &&& places[0] == signed_at(data, 32)
            &&& forall|i: int|
                0 <= i < archive.imports.len() ==> reads_import(
                    archive.names,
                    data,
                    #[trigger] places[i],
                    archive.imports[i],
                    places[i + 1],
                )
        }),
{
    let archive = package::archive_in(name, data)->Ok_0;
    assert(package::header_number(data, 32) == signed_at(data, 32));
    let places = lemma_imports(
        archive.names,
        data,
        signed_at(data, 32),
        package::header_number(data, 28) as nat,
        Seq::empty(),
    );
    assert forall|i: int| 0 <= i < archive.imports.len() implies reads_import(
        archive.names,
        data,
        #[trigger] places[i],
        archive.imports[i],
        places[i + 1],
    ) by {
        assert(reads_import(
            archive.names,
            data,
            places[i],
            archive.imports[Seq::<ImportModel>::empty().len() + i],
            places[i + 1],
        ));
    }
    places
}

/// An export as bytes have it: the number of its class, one that is passed over,
/// four bytes that are passed over, the number of its name, four bytes of flags,
/// and its size; and its place, unless it is empty.
#[verifier::opaque]
pub open spec fn reads_export(
    names: Seq<Seq<char>>,
    data: Seq<u8>,
    at: int,
    entry: ExportModel,
    class: int,
    end: int,
) -> bool {
    let (first, second_at) = reader::index_at(data, at)->Ok_0;
    let (_, skipped_at) = reader::index_at(data, second_at)->Ok_0;
    let (own, flags_at) = reader::index_at(data, skipped_at + 4)->Ok_0;
    let (size, place_at) = reader::index_at(data, flags_at + 4)->Ok_0;
    &&& reader::index_at(data, at) is Ok
    &&& reader::index_at(data, second_at) is Ok
    &&& reader::index_at(data, skipped_at + 4) is Ok
    &&& reader::index_at(data, flags_at + 4) is Ok
    &&& class == first
    &&& 0 <= own < names.len() && entry.object_name == names[own as int]
    &&& entry.flags == unsigned_at(data, flags_at)
    &&& entry.serial_size == size
    &&& if size > 0 {
        reader::index_at(data, place_at) == reader::Parsed::<i32>::Ok((entry.serial_offset, end))
    } else {
        entry.serial_offset == 0 && end == place_at
    }
}

proof fn lemma_export(
    names: Seq<Seq<char>>,
    imports: Seq<ImportModel>,
    exports: Seq<ExportModel>,
    data: Seq<u8>,
    at: int,
)
    ensures
        package::export_at(names, imports, exports, data, at) matches Ok((entry, end)) ==> {
            let class = reader::index_at(data, at)->Ok_0.0 as int;
            &&& reads_export(names, data, at, entry, class, end)
            &&& class < 0 ==> -class - 1 < imports.len() && entry.class_name == imports[-class
                - 1].object_name
            &&& class > 0 ==> class - 1 < exports.len() && entry.class_name == exports[class
                - 1].object_name
            &&& class == 0 ==> entry.class_name == "None"@
        },
{
    reveal(reads_export);
}

/// What the class of an export is called: an import for a negative number, an
/// export before it for a positive one, and nothing for zero.
pub open spec fn names_class(
    archive: ArchiveModel,
    entry: ExportModel,
    place: int,
    class: int,
) -> bool {
    &&& class < 0 ==> -class - 1 < archive.imports.len() && entry.class_name
        == archive.imports[-class - 1].object_name
    &&& class > 0 ==> class - 1 < place && entry.class_name == archive.exports[class
        - 1].object_name
    &&& class == 0 ==> entry.class_name == "None"@
}

/// One row of an export table.
#[verifier::opaque]
spec fn is_row(
    names: Seq<Seq<char>>,
    imports: Seq<ImportModel>,
    entries: Seq<ExportModel>,
    data: Seq<u8>,
    place: int,
    row: (int, int),
    next: int,
) -> bool {
    let entry = entries[place];
    let class = row.1;
    &&& reads_export(names, data, row.0, entry, class, next)
    &&& class < 0 ==> -class - 1 < imports.len() && entry.class_name == imports[-class
        - 1].object_name
    &&& class > 0 ==> class - 1 < place && entry.class_name == entries[class - 1].object_name
    &&& class == 0 ==> entry.class_name == "None"@
}

proof fn lemma_row(
    names: Seq<Seq<char>>,
    imports: Seq<ImportModel>,
    done: Seq<ExportModel>,
    entries: Seq<ExportModel>,
    data: Seq<u8>,
    at: int,
)
    requires
        package::export_at(names, imports, done, data, at) is Ok,
        entries.len() > done.len(),
        entries.take(done.len() as int) == done,
        entries[done.len() as int] == package::export_at(names, imports, done, data, at)->Ok_0.0,
    ensures
        is_row(
            names,
            imports,
            entries,
            data,
            done.len() as int,
            (at, reader::index_at(data, at)->Ok_0.0 as int),
            package::export_at(names, imports, done, data, at)->Ok_0.1,
        ),
{
    reveal(is_row);
    lemma_export(names, imports, done, data, at);
    let class = reader::index_at(data, at)->Ok_0.0 as int;
    if class > 0 {
        assert(entries[class - 1] == entries.take(done.len() as int)[class - 1]);
    }
}

proof fn lemma_exports(
    names: Seq<Seq<char>>,
    imports: Seq<ImportModel>,
    data: Seq<u8>,
    pos: int,
    count: nat,
    done: Seq<ExportModel>,
) -> (rows: Seq<(int, int)>)
    ensures
        package::exports_from(names, imports, data, pos, count, done) matches Ok((entries, end)) ==> {
            &&& entries.len() == done.len() + count
            &&& entries.take(done.len() as int) == done
            &&& rows.len() == count + 1
            &&& rows[0].0 == pos
            &&& forall|i: int|
                0 <= i < count ==> is_row(
                    names,
                    imports,
                    entries,
                    data,
                    done.len() + i,
                    #[trigger] rows[i],
                    rows[i + 1].0,
                )
        },
    decreases count,
{
    if package::exports_from(names, imports, data, pos, count, done) is Ok {
        let entries = package::exports_from(names, imports, data, pos, count, done)->Ok_0.0;
        if count == 0 {
            assert(entries.take(done.len() as int) =~= done);
            seq![(pos, 0int)]
        } else {
            let found = package::export_at(names, imports, done, data, pos);
            assert(found is Ok);
            let entry = found->Ok_0.0;
            let next = found->Ok_0.1;
            let class = reader::index_at(data, pos)->Ok_0.0 as int;
            let fewer = (count - 1) as nat;
            assert(package::exports_from(names, imports, data, pos, count, done)
                == package::exports_from(names, imports, data, next, fewer, done.push(entry)));
            let rest = lemma_exports(names, imports, data, next, fewer, done.push(entry));
            let rows = seq![(pos, class)] + rest;
            let n = done.len() as int;
            assert(entries.take(n + 1) == done.push(entry));
            assert(entries[n] == entries.take(n + 1)[n]);
            assert(entries.take(n) =~= entries.take(n + 1).take(n));
            assert(done.push(entry).take(n) =~= done);
            lemma_row(names, imports, done, entries, data, pos);
            assert forall|i: int| 0 <= i < count implies is_row(
                names,
                imports,
                entries,
                data,
                n + i,
                #[trigger] rows[i],
                rows[i + 1].0,
            ) by {
                if i > 0 {
                    assert(rows[i] == rest[i - 1]);
                    assert(rows[i + 1] == rest[i - 1 + 1]);
                    assert(is_row(
                        names,
                        imports,
                        entries,
                        data,
                        n + 1 + (i - 1),
                        rest[i - 1],
                        rest[i - 1 + 1].0,
                    ));
                } else {
                    assert(rows[0] == (pos, class));
                    assert(rows[1] == rest[0]);
                }
            }
            rows
        }
    } else {
        Seq::empty()
    }
}

/// The exports of a package stand where its header says, one behind the other,
/// and each names its class.
pub proof fn exports_stand_in_a_row(name: Seq<char>, data: Seq<u8>) -> (rows: Seq<(int, int)>)
    requires
        package::archive_in(name, data) is Ok,
    ensures
        ({
            let archive = package::archive_in(name, data)->Ok_0;
            &&& rows.len() == archive.exports.len() + 1
            &&& rows[0].0 == signed_at(data, 24)
            &&& forall|i: int|
                0 <= i < archive.exports.len() ==> reads_export(
                    archive.names,
                    data,
                    (#[trigger] rows[i]).0,
                    archive.exports[i],
                    rows[i].1,
                    rows[i + 1].0,
                ) && names_class(archive, archive.exports[i], i, rows[i].1)
        }),
{
    let archive = package::archive_in(name, data)->Ok_0;
    assert(package::header_number(data, 24) == signed_at(data, 24));
    let rows = lemma_exports(
        archive.names,
        archive.imports,
        data,
        signed_at(data, 24),
        package::header_number(data, 20) as nat,
        Seq::empty(),
    );
    assert forall|i: int| 0 <= i < archive.exports.len() implies reads_export(
        archive.names,
        data,
        (#[trigger] rows[i]).0,
        archive.exports[i],
        rows[i].1,
        rows[i + 1].0,
    ) && names_class(archive, archive.exports[i], i, rows[i].1) by {
        reveal(is_row);
        assert(is_row(
            archive.names,
            archive.imports,
            archive.exports,
            data,
            Seq::<ExportModel>::empty().len() + i,
            rows[i],
            rows[i + 1].0,
        ));
    }
    rows
}

/// A number is read exactly if all its bytes are there.
pub proof fn numbers_need_their_bytes(bytes: Seq<u8>, at: int, size: int)
    requires
        0 <= at,
        0 <= size,
    ensures
        reader::byte_at(bytes, at) is Ok <==> at + 1 <= bytes.len(),
        reader::u16_at(bytes, at) is Ok <==> at + 2 <= bytes.len(),
        reader::i16_at(bytes, at) is Ok <==> at + 2 <= bytes.len(),
        reader::u32_at(bytes, at) is Ok <==> at + 4 <= bytes.len(),
        reader::i32_at(bytes, at) is Ok <==> at + 4 <= bytes.len(),
        reader::vector_at(bytes, at) is Ok <==> at + 12 <= bytes.len(),
        reader::rotator_at(bytes, at) is Ok <==> at + 12 <= bytes.len(),
        reader::behind(bytes, at, size) == if at + size <= bytes.len() {
            reader::Parsed::<()>::Ok(((), at + size))
        } else {
            reader::Parsed::<()>::Err(reader::out_of_bytes())
        },
{
}

} // verus!
