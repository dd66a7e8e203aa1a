//! The files that hold blocks: plain `.l2j`, enciphered `.l2g` and `_conv.dat`.

use vstd::prelude::*;
use vstd::slice::{slice_subrange, slice_to_vec};

use crate::error::{AppError, ErrorModel, Result};
use crate::l2j::block::{BlockModel, EditableBlockType};
use crate::path::{extension, file_name};
use crate::text::{chars_end_with, lower_chars, same_ignoring_case};
use crate::{l2j::block, l2j::encode, path, text};

verus! {

/// What surrounds the blocks of a file.
#[derive(Debug)]
#[allow(inconsistent_fields)]
pub enum StorageFormat {
    L2j,
    L2g { header: [u8; 4] },
    ConvDat { header: [u8; 18] },
}

impl Clone for StorageFormat {
    fn clone(&self) -> (copy: Self)
        ensures
            copy == *self,
    {
        match self {
            StorageFormat::L2j => StorageFormat::L2j,
            StorageFormat::L2g { header } => StorageFormat::L2g { header: *header },
            StorageFormat::ConvDat { header } => StorageFormat::ConvDat { header: *header },
        }
    }
}

/// A [`StorageFormat`], with its header as a sequence.
#[verifier::ext_equal]
pub enum FormatModel {
    L2j,
    L2g(Seq<u8>),
    ConvDat(Seq<u8>),
}

impl View for StorageFormat {
    type V = FormatModel;

    open spec fn view(&self) -> FormatModel {
        match self {
            StorageFormat::L2j => FormatModel::L2j,
            StorageFormat::L2g { header } => FormatModel::L2g(header@),
            StorageFormat::ConvDat { header } => FormatModel::ConvDat(header@),
        }
    }
}

impl FormatModel {
    /// Whether blocks use the encoding with words for types and counts.
    pub open spec fn wide(self) -> bool {
        self is ConvDat
    }

    /// Whether the header has the size that the format asks for.
    pub open spec fn valid(self) -> bool {
        match self {
            FormatModel::L2j => true,
            FormatModel::L2g(header) => header.len() == 4,
            FormatModel::ConvDat(header) => header.len() == 18,
        }
    }

    pub open spec fn name(self) -> Seq<char> {
        match self {
            FormatModel::L2j => ".l2j"@,
            FormatModel::L2g(_) => ".l2g"@,
            FormatModel::ConvDat(_) => "_conv.dat"@,
        }
    }

    /// Whether a file of this format may be written to a path.
    pub open spec fn accepts(self, destination: Seq<char>) -> bool {
        match path::file_name_of(destination) {
            None => false,
            Some(name) => match self {
                FormatModel::L2j => has_extension(name, "l2j"@),
                FormatModel::L2g(_) => has_extension(name, "l2g"@),
                FormatModel::ConvDat(_) => text::ends_with(text::ascii_lower(name), "_conv.dat"@),
            },
        }
    }
}

/// Whether a file name has an extension, in upper or lower case.
pub open spec fn has_extension(name: Seq<char>, extension: Seq<char>) -> bool {
    path::extension_of(name) is Some && text::ascii_lower(path::extension_of(name)->0)
        == text::ascii_lower(extension)
}

impl StorageFormat {
    pub fn is_wide(&self) -> (wide: bool)
        ensures
            wide == self@.wide(),
    {
        match self {
            StorageFormat::ConvDat { .. } => true,
            _ => false,
        }
    }

    /// What the files of this format are called.
    pub fn format_name(&self) -> (name: &'static str)
        ensures
            name@ == self@.name(),
    {
        match self {
            StorageFormat::L2j => ".l2j",
            StorageFormat::L2g { .. } => ".l2g",
            StorageFormat::ConvDat { .. } => "_conv.dat",
        }
    }

    /// Whether a file of this format may be written to a path.
    pub fn matches_destination(&self, destination: &str) -> (accepted: bool)
        ensures
            accepted == self@.accepts(destination@),
    {
        let name = match file_name(destination) {
            Some(name) => name,
            None => {
                return false;
            },
        };
        match self {
            StorageFormat::L2j => named(name.as_slice(), "l2j"),
            StorageFormat::L2g { .. } => named(name.as_slice(), "l2g"),
            StorageFormat::ConvDat { .. } => chars_end_with(
                lower_chars(name.as_slice()).as_slice(),
                "_conv.dat",
            ),
        }
    }
}

fn named(name: &[char], expected: &str) -> (result: bool)
    ensures
        result == has_extension(name@, expected@),
{
    match extension(name) {
        Some(extension) => same_ignoring_case(extension.as_slice(), expected),
        None => false,
    }
}

/// The header of a `.l2g` file whose body is not enciphered.
pub open spec fn plain_header() -> Seq<u8> {
    seq![129u8, 65u8, 65u8, 171u8]
}

/// Where the cipher of a `.l2g` body starts: the header's four bytes and those
/// of the plain header, combined by exclusive or.
pub open spec fn cipher_key(header: Seq<u8>) -> u8 {
    header[0] ^ header[1] ^ header[2] ^ header[3] ^ 42u8
}

/// Each byte combined with the plain byte before it, the first one with the key.
pub open spec fn enciphered(key: u8, plain: Seq<u8>) -> Seq<u8> {
    Seq::new(
        plain.len(),
        |i: int|
            plain[i] ^ if i == 0 {
                key
            } else {
                plain[i - 1]
            },
    )
}

/// The plain bytes, each found from the one before it.
pub open spec fn deciphered(key: u8, body: Seq<u8>) -> Seq<u8>
    decreases body.len(),
{
    if body.len() == 0 {
        body
    } else {
        let front = deciphered(key, body.drop_last());
        front.push(
            body.last() ^ if front.len() == 0 {
                key
            } else {
                front.last()
            },
        )
    }
}

/// The plain body of a `.l2g` file.
pub open spec fn opened_body(header: Seq<u8>, body: Seq<u8>) -> Seq<u8> {
    if header == plain_header() {
        body
    } else {
        deciphered(cipher_key(header), body)
    }
}

/// The body of a `.l2g` file for plain bytes.
pub open spec fn sealed_body(header: Seq<u8>, plain: Seq<u8>) -> Seq<u8> {
    if header == plain_header() {
        plain
    } else {
        enciphered(cipher_key(header), plain)
    }
}

proof fn lemma_xor(a: u8, b: u8)
    ensures
        (a ^ b) ^ b == a,
{
    assert((a ^ b) ^ b == a) by (bit_vector);
}

proof fn lemma_deciphered_length(key: u8, body: Seq<u8>)
    ensures
        deciphered(key, body).len() == body.len(),
    decreases body.len(),
{
    if body.len() > 0 {
        lemma_deciphered_length(key, body.drop_last());
    }
}

/// Enciphering undoes deciphering.
pub proof fn sealing_undoes_opening(header: Seq<u8>, body: Seq<u8>)
    ensures
        sealed_body(header, opened_body(header, body)) == body,
        opened_body(header, body).len() == body.len(),
{
    if header != plain_header() {
        lemma_enciphered_deciphered(cipher_key(header), body);
    }
}

proof fn lemma_enciphered_deciphered(key: u8, body: Seq<u8>)
    ensures
        enciphered(key, deciphered(key, body)) == body,
        deciphered(key, body).len() == body.len(),
    decreases body.len(),
{
    lemma_deciphered_length(key, body);
    if body.len() > 0 {
        let front = deciphered(key, body.drop_last());
        lemma_deciphered_length(key, body.drop_last());
        lemma_enciphered_deciphered(key, body.drop_last());
        lemma_xor(
            body.last(),
            if front.len() == 0 {
                key
            } else {
                front.last()
            },
        );
        let whole = enciphered(key, deciphered(key, body));
        let shorter = enciphered(key, front);
        assert forall|i: int| 0 <= i < body.len() implies #[trigger] whole[i] == body[i] by {
            if i < body.len() - 1 {
                assert(whole[i] == shorter[i]);
                assert(shorter[i] == body.drop_last()[i]);
            }
        }
        assert(whole =~= body);
    } else {
        assert(enciphered(key, deciphered(key, body)) =~= body);
    }
}

/// Deciphering undoes enciphering.
pub proof fn opening_undoes_sealing(header: Seq<u8>, plain: Seq<u8>)
    ensures
        opened_body(header, sealed_body(header, plain)) == plain,
        sealed_body(header, plain).len() == plain.len(),
{
    if header != plain_header() {
        lemma_deciphered_enciphered(cipher_key(header), plain);
    }
}

proof fn lemma_deciphered_enciphered(key: u8, plain: Seq<u8>)
    ensures
        deciphered(key, enciphered(key, plain)) == plain,
    decreases plain.len(),
{
    if plain.len() > 0 {
        let body = enciphered(key, plain);
        assert(body.drop_last() =~= enciphered(key, plain.drop_last()));
        lemma_deciphered_enciphered(key, plain.drop_last());
        lemma_xor(
            plain.last(),
            if plain.len() == 1 {
                key
            } else {
                plain[plain.len() - 2]
            },
        );
        assert(deciphered(key, body) =~= plain);
    } else {
        assert(deciphered(key, enciphered(key, plain)) =~= plain);
    }
}

fn is_plain(header: &[u8; 4]) -> (plain: bool)
    ensures
        plain == (header@ == plain_header()),
{
    let plain = header[0] == 129 && header[1] == 65 && header[2] == 65 && header[3] == 171;
    assert(plain ==> header@ =~= plain_header());
    plain
}

/// Deciphers the body of a `.l2g` file.
pub fn decrypt_l2g_body(header: &[u8; 4], body: &[u8]) -> (plain: Vec<u8>)
    ensures
        plain@ == opened_body(header@, body@),
{
    if is_plain(header) {
        return slice_to_vec(body);
    }
    let first: u8 = header[0] ^ header[1] ^ header[2] ^ header[3] ^ 42;
    let mut key: u8 = first;
    let mut plain: Vec<u8> = Vec::new();
    let mut next: usize = 0;
    assert(body@.take(0) =~= Seq::<u8>::empty());
    while next < body.len()
        invariant
            next <= body.len(),
            plain@.len() == next,
            plain@ == deciphered(first, body@.take(next as int)),
            key == if next == 0 {
                first
            } else {
                plain@.last()
            },
        decreases body.len() - next,
    {
        let byte: u8 = body[next] ^ key;
        plain.push(byte);
        key = byte;
        next += 1;
        assert(body@.take(next as int).drop_last() =~= body@.take(next - 1));
    }
    assert(body@.take(next as int) =~= body@);
    plain
}

/// Enciphers the body of a `.l2g` file.
pub fn encrypt_l2g_body(header: &[u8; 4], plain: &[u8]) -> (body: Vec<u8>)
    ensures
        body@ == sealed_body(header@, plain@),
{
    if is_plain(header) {
        return slice_to_vec(plain);
    }
    let first: u8 = header[0] ^ header[1] ^ header[2] ^ header[3] ^ 42;
    let mut key: u8 = first;
    let mut body: Vec<u8> = Vec::new();
    let mut next: usize = 0;
    while next < plain.len()
        invariant
            next <= plain.len(),
            body@.len() == next,
            key == if next == 0 {
                first
            } else {
                plain@[next - 1]
            },
            forall|i: int| 0 <= i < next ==> #[trigger] body@[i] == enciphered(first, plain@)[i],
        decreases plain.len() - next,
    {
        let byte: u8 = plain[next];
        body.push(byte ^ key);
        key = byte;
        next += 1;
    }
    assert(body@ =~= enciphered(first, plain@));
    body
}

/// What a file holds: the format, told by its name, and the plain bytes of the blocks.
pub open spec fn decoded_file(
    path: Seq<char>,
    bytes: Seq<u8>,
) -> std::result::Result<(FormatModel, Seq<u8>), ErrorModel> {
    match path::file_name_of(path) {
        None => Err(ErrorModel::InvalidArgument("geodata file name is not valid Unicode"@)),
        Some(name) => if text::ends_with(text::ascii_lower(name), "_conv.dat"@) {
            if bytes.len() < 18 {
                Err(ErrorModel::InvalidData("Conv DAT header is shorter than 18 bytes"@))
            } else {
                Ok((FormatModel::ConvDat(bytes.take(18)), bytes.skip(18)))
            }
        } else if has_extension(name, "l2j"@) {
            Ok((FormatModel::L2j, bytes))
        } else if has_extension(name, "l2g"@) {
            if bytes.len() < 4 {
                Err(ErrorModel::InvalidData("L2G header is shorter than 4 bytes"@))
            } else {
                Ok(
                    (
                        FormatModel::L2g(bytes.take(4)),
                        opened_body(bytes.take(4), bytes.skip(4)),
                    ),
                )
            }
        } else {
            Err(
                ErrorModel::InvalidArgument(
                    "unsupported geodata format; expected .l2j, .l2g, or _conv.dat"@,
                ),
            )
        },
    }
}

/// Splits a file into its format and the plain bytes of its blocks.
pub fn decode_storage(path: &str, bytes: Vec<u8>) -> (result: Result<(StorageFormat, Vec<u8>)>)
    ensures
        match (result, decoded_file(path@, bytes@)) {
            (Ok((format, body)), Ok((expected, plain))) => {
                format@ == expected && body@ == plain && expected.valid()
            },
            (Err(error), Err(expected)) => error@ == expected,
            _ => false,
        },
{
    let name = match file_name(path) {
        Some(name) => name,
        None => {
            return Err(
                AppError::InvalidArgument("geodata file name is not valid Unicode".to_owned()),
            );
        },
    };
    if chars_end_with(lower_chars(name.as_slice()).as_slice(), "_conv.dat") {
        if bytes.len() < 18 {
            return Err(
                AppError::InvalidData("Conv DAT header is shorter than 18 bytes".to_owned()),
            );
        }
        let mut header: [u8; 18] = [0;18];
        let mut i: usize = 0;
        while i < 18
            invariant
                i <= 18,
                bytes@.len() >= 18,
                forall|k: int| 0 <= k < i ==> #[trigger] header@[k] == bytes@[k],
            decreases 18 - i,
        {
            header[i] = bytes[i];
            i += 1;
        }
        assert(header@ =~= bytes@.take(18));
        let body = slice_subrange(bytes.as_slice(), 18, bytes.len());
        assert(body@ =~= bytes@.skip(18));
        return Ok((StorageFormat::ConvDat { header }, slice_to_vec(body)));
    }
    if named(name.as_slice(), "l2j") {
        return Ok((StorageFormat::L2j, bytes));
    }
    if named(name.as_slice(), "l2g") {
        if bytes.len() < 4 {
            return Err(AppError::InvalidData("L2G header is shorter than 4 bytes".to_owned()));
        }
        let header: [u8; 4] = [bytes[0], bytes[1], bytes[2], bytes[3]];
        assert(header@ =~= bytes@.take(4));
        let body = slice_subrange(bytes.as_slice(), 4, bytes.len());
        assert(body@ =~= bytes@.skip(4));
        let plain = decrypt_l2g_body(&header, body);
        return Ok((StorageFormat::L2g { header }, plain));
    }
    Err(
        AppError::InvalidArgument(
            "unsupported geodata format; expected .l2j, .l2g, or _conv.dat".to_owned(),
        ),
    )
}

/// How many of the first blocks are of one kind.
pub open spec fn kind_count(blocks: Seq<BlockModel>, kind: EditableBlockType) -> nat
    decreases blocks.len(),
{
    if blocks.len() == 0 {
        0
    } else {
        kind_count(blocks.drop_last(), kind) + if blocks.last().kind == kind {
            1nat
        } else {
            0nat
        }
    }
}

/// The cells that are stored one by one: those of complex and multilayer blocks.
pub open spec fn stored_cells(blocks: Seq<BlockModel>) -> nat
    decreases blocks.len(),
{
    if blocks.len() == 0 {
        0
    } else {
        stored_cells(blocks.drop_last()) + match blocks.last().kind {
            EditableBlockType::Simple => 0,
            EditableBlockType::Complex => 64,
            EditableBlockType::Multilayer => block::layer_total(blocks.last().columns),
        }
    }
}

/// A number as four little-endian bytes, kept to thirty-two bits.
pub open spec fn dword_bytes(value: int) -> Seq<u8> {
    encode::word_bytes(value % 65_536) + encode::word_bytes(value / 65_536 % 65_536)
}

/// The header of a `_conv.dat` file with changed blocks. Its first word is kept.
pub open spec fn conv_header(original: Seq<u8>, blocks: Seq<BlockModel>) -> Seq<u8> {
    original.take(2) + encode::word_bytes(128) + encode::word_bytes(16) + dword_bytes(
        stored_cells(blocks) as int,
    ) + dword_bytes(
        (kind_count(blocks, EditableBlockType::Simple) + kind_count(
            blocks,
            EditableBlockType::Complex,
        )) as int,
    ) + dword_bytes(kind_count(blocks, EditableBlockType::Simple) as int)
}

fn write_dword(output: &mut Vec<u8>, value: u64)
    ensures
        final(output)@ == old(output)@ + dword_bytes(value as int),
{
    output.push((value % 65_536 % 256) as u8);
    output.push((value % 65_536 / 256) as u8);
    output.push((value / 65_536 % 65_536 % 256) as u8);
    output.push((value / 65_536 % 65_536 / 256) as u8);
    assert(final(output)@ =~= old(output)@ + dword_bytes(value as int));
}

/// The header of a `_conv.dat` file, from the numbers of its blocks and cells.
pub fn conv_dat_header(original: &[u8; 18], flat: u64, complex: u64, cells: u64) -> (header: Vec<
    u8,
>)
    requires
        flat <= 65_536,
        complex <= 65_536,
    ensures
        header@ == original@.take(2) + encode::word_bytes(128) + encode::word_bytes(16)
            + dword_bytes(cells as int) + dword_bytes(flat + complex) + dword_bytes(flat as int),
{
    let mut header: Vec<u8> = Vec::new();
    header.push(original[0]);
    header.push(original[1]);
    header.push(128);
    header.push(0);
    header.push(16);
    header.push(0);
    assert(header@ =~= original@.take(2) + encode::word_bytes(128) + encode::word_bytes(16));
    write_dword(&mut header, cells);
    write_dword(&mut header, flat + complex);
    write_dword(&mut header, flat);
    header
}

} // verus!
