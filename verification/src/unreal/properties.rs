//! The property lists that open most objects.

use vstd::prelude::*;

use crate::error::{AppError, ErrorModel, Result};
use crate::text;
use crate::text::same_text;
use crate::unreal::package;
use crate::unreal::package::read_name;
use crate::unreal::reader;
use crate::unreal::reader::{Parsed, Reader, Rotator, Vector};

verus! {

/// The flag of objects that open with the state of a script.
pub const HAS_STACK: u32 = 33_554_432;

/// The flag of objects without properties.
pub const NATIVE: u32 = 67_108_864;

/// The value of a property. Floating-point numbers are bits.
#[derive(Debug)]
pub enum Value {
    Byte(u8),
    Int(i32),
    Bool(bool),
    Float(u32),
    Index(i32),
    Vector(Vector),
    Rotator(Rotator),
    Bytes(Vec<u8>),
    Maps(Vec<Properties>),
    Skipped,
}

#[derive(Debug)]
pub struct Property {
    pub name: String,
    pub value: Value,
}

/// Properties, in the order in which they were read.
#[derive(Debug)]
pub struct Properties {
    pub entries: Vec<Property>,
}

/// What a [`Value`] holds.
#[verifier::ext_equal]
pub enum ValueModel {
    Byte(u8),
    Int(i32),
    Bool(bool),
    Float(u32),
    Index(i32),
    Vector(Vector),
    Rotator(Rotator),
    Bytes(Seq<u8>),
    Maps(Seq<Seq<PropertyModel>>),
    Skipped,
}

/// What a [`Property`] says.
#[verifier::ext_equal]
pub struct PropertyModel {
    pub name: Seq<char>,
    pub value: ValueModel,
}

/// What [`Properties`] hold.
pub type PropertiesModel = Seq<PropertyModel>;

pub open spec fn value_model(value: Value) -> ValueModel
    decreases value,
{
    match value {
        Value::Byte(byte) => ValueModel::Byte(byte),
        Value::Int(number) => ValueModel::Int(number),
        Value::Bool(flag) => ValueModel::Bool(flag),
        Value::Float(bits) => ValueModel::Float(bits),
        Value::Index(index) => ValueModel::Index(index),
        Value::Vector(vector) => ValueModel::Vector(vector),
        Value::Rotator(rotator) => ValueModel::Rotator(rotator),
        Value::Bytes(bytes) => ValueModel::Bytes(bytes@),
        Value::Maps(maps) => ValueModel::Maps(
            Seq::new(
                maps@.len(),
                |i: int|
                    if 0 <= i < maps@.len() {
                        properties_model(maps@[i])
                    } else {
                        Seq::empty()
                    },
            ),
        ),
        Value::Skipped => ValueModel::Skipped,
    }
}

pub open spec fn property_model(property: Property) -> PropertyModel
    decreases property,
{
    PropertyModel { name: property.name@, value: value_model(property.value) }
}

pub open spec fn properties_model(properties: Properties) -> PropertiesModel
    decreases properties,
{
    Seq::new(
        properties.entries@.len(),
        |i: int|
            if 0 <= i < properties.entries@.len() {
                property_model(properties.entries@[i])
            } else {
                PropertyModel { name: Seq::empty(), value: ValueModel::Skipped }
            },
    )
}

impl View for Value {
    type V = ValueModel;

    open spec fn view(&self) -> ValueModel {
        value_model(*self)
    }
}

impl View for Properties {
    type V = PropertiesModel;

    open spec fn view(&self) -> PropertiesModel {
        properties_model(*self)
    }
}

/// The last value that was read under a name.
pub open spec fn lookup(properties: PropertiesModel, name: Seq<char>) -> Option<ValueModel>
    decreases properties.len(),
{
    if properties.len() == 0 {
        None
    } else if properties.last().name == name {
        Some(properties.last().value)
    } else {
        lookup(properties.drop_last(), name)
    }
}

pub open spec fn boolean_of(properties: PropertiesModel, name: Seq<char>) -> bool {
    lookup(properties, name) == Some(ValueModel::Bool(true))
}

pub open spec fn boolean_or_of(properties: PropertiesModel, name: Seq<char>, default: bool) -> bool {
    match lookup(properties, name) {
        None => default,
        Some(value) => value == ValueModel::Bool(true),
    }
}

pub open spec fn byte_of(properties: PropertiesModel, name: Seq<char>) -> Option<u8> {
    match lookup(properties, name) {
        Some(ValueModel::Byte(byte)) => Some(byte),
        _ => None,
    }
}

pub open spec fn integer_of(properties: PropertiesModel, name: Seq<char>) -> Option<i32> {
    match lookup(properties, name) {
        Some(ValueModel::Int(number)) => Some(number),
        _ => None,
    }
}

pub open spec fn float_of(properties: PropertiesModel, name: Seq<char>) -> Option<u32> {
    match lookup(properties, name) {
        Some(ValueModel::Float(bits)) => Some(bits),
        _ => None,
    }
}

pub open spec fn index_of(properties: PropertiesModel, name: Seq<char>) -> Option<i32> {
    match lookup(properties, name) {
        Some(ValueModel::Index(index)) => Some(index),
        _ => None,
    }
}

pub open spec fn vector_of(properties: PropertiesModel, name: Seq<char>) -> Option<Vector> {
    match lookup(properties, name) {
        Some(ValueModel::Vector(vector)) => Some(vector),
        _ => None,
    }
}

pub open spec fn rotator_of(properties: PropertiesModel, name: Seq<char>) -> Option<Rotator> {
    match lookup(properties, name) {
        Some(ValueModel::Rotator(rotator)) => Some(rotator),
        _ => None,
    }
}

pub open spec fn bytes_of(properties: PropertiesModel, name: Seq<char>) -> Option<Seq<u8>> {
    match lookup(properties, name) {
        Some(ValueModel::Bytes(bytes)) => Some(bytes),
        _ => None,
    }
}

pub open spec fn maps_of(properties: PropertiesModel, name: Seq<char>) -> Seq<PropertiesModel> {
    match lookup(properties, name) {
        Some(ValueModel::Maps(maps)) => maps,
        _ => Seq::empty(),
    }
}

proof fn lemma_entry(properties: Properties, i: int)
    requires
        0 <= i < properties.entries@.len(),
    ensures
        properties@.len() == properties.entries@.len(),
        properties@[i].name == properties.entries@[i].name@,
        properties@[i].value == properties.entries@[i].value@,
{
}

impl Properties {
    /// The last value under a name.
    pub fn get(&self, name: &str) -> (value: Option<&Value>)
        ensures
            match (value, lookup(self@, name@)) {
                (Some(value), Some(expected)) => value@ == expected,
                (None, None) => true,
                _ => false,
            },
    {
        let mut end: usize = self.entries.len();
        assert(self@.take(end as int) =~= self@);
        while end > 0
            invariant
                end <= self.entries@.len(),
                self@.len() == self.entries@.len(),
                lookup(self@.take(end as int), name@) == lookup(self@, name@),
            decreases end,
        {
            proof {
                lemma_entry(*self, end - 1);
                assert(self@.take(end as int).drop_last() =~= self@.take(end - 1));
            }
            if same_text(self.entries[end - 1].name.as_str(), name) {
                return Some(&self.entries[end - 1].value);
            }
            end -= 1;
        }
        None
    }

    pub fn boolean(&self, name: &str) -> (flag: bool)
        ensures
            flag == boolean_of(self@, name@),
    {
        match self.get(name) {
            Some(Value::Bool(flag)) => *flag,
            _ => false,
        }
    }

    pub fn boolean_or(&self, name: &str, default: bool) -> (flag: bool)
        ensures
            flag == boolean_or_of(self@, name@, default),
    {
        match self.get(name) {
            Some(Value::Bool(flag)) => *flag,
            Some(_) => false,
            None => default,
        }
    }

    pub fn byte(&self, name: &str) -> (value: Option<u8>)
        ensures
            value == byte_of(self@, name@),
    {
        match self.get(name) {
            Some(Value::Byte(byte)) => Some(*byte),
            _ => None,
        }
    }

    pub fn integer(&self, name: &str) -> (value: Option<i32>)
        ensures
            value == integer_of(self@, name@),
    {
        match self.get(name) {
            Some(Value::Int(number)) => Some(*number),
            _ => None,
        }
    }

    pub fn float(&self, name: &str) -> (bits: Option<u32>)
        ensures
            bits == float_of(self@, name@),
    {
        match self.get(name) {
            Some(Value::Float(bits)) => Some(*bits),
            _ => None,
        }
    }

    pub fn index(&self, name: &str) -> (value: Option<i32>)
        ensures
            value == index_of(self@, name@),
    {
        match self.get(name) {
            Some(Value::Index(index)) => Some(*index),
            _ => None,
        }
    }

    pub fn vector(&self, name: &str) -> (value: Option<Vector>)
        ensures
            value == vector_of(self@, name@),
    {
        match self.get(name) {
            Some(Value::Vector(vector)) => Some(*vector),
            _ => None,
        }
    }

    pub fn rotator(&self, name: &str) -> (value: Option<Rotator>)
        ensures
            value == rotator_of(self@, name@),
    {
        match self.get(name) {
            Some(Value::Rotator(rotator)) => Some(*rotator),
            _ => None,
        }
    }

    pub fn bytes(&self, name: &str) -> (value: Option<Vec<u8>>)
        ensures
            match (value, bytes_of(self@, name@)) {
                (Some(bytes), Some(expected)) => bytes@ == expected,
                (None, None) => true,
                _ => false,
            },
    {
        match self.get(name) {
            Some(Value::Bytes(bytes)) => Some(vstd::slice::slice_to_vec(bytes.as_slice())),
            _ => None,
        }
    }

    /// Whether each of the property lists under a name sets a flag.
    pub fn flags_of_maps(&self, name: &str, flag: &str) -> (flags: Vec<bool>)
        ensures
            flags@ == maps_of(self@, name@).map_values(
                |entry: PropertiesModel| boolean_of(entry, flag@),
            ),
    {
        let mut flags: Vec<bool> = Vec::new();
        match self.get(name) {
            Some(Value::Maps(maps)) => {
                let ghost list = maps_of(self@, name@);
                let mut i: usize = 0;
                while i < maps.len()
                    invariant
                        i <= maps@.len(),
                        list.len() == maps@.len(),
                        forall|j: int| 0 <= j < maps@.len() ==> list[j] == (#[trigger] maps@[j])@,
                        flags@ == list.take(i as int).map_values(
                            |entry: PropertiesModel| boolean_of(entry, flag@),
                        ),
                    decreases maps.len() - i,
                {
                    flags.push(maps[i].boolean(flag));
                    i += 1;
                    assert(flags@ =~= list.take(i as int).map_values(
                        |entry: PropertiesModel| boolean_of(entry, flag@),
                    ));
                }
                assert(list.take(i as int) =~= list);
            },
            _ => {
                assert(flags@ =~= maps_of(self@, name@).map_values(
                    |entry: PropertiesModel| boolean_of(entry, flag@),
                ));
            },
        }
        flags
    }
}

/// What precedes the value of a property: its type, whether it is an element of
/// an array (or, of a flag, its value), the name of its structure, its size.
pub struct Head {
    pub kind: u8,
    pub marked: bool,
    pub structure: Option<String>,
    pub size: usize,
}

/// What a [`Head`] says.
#[verifier::ext_equal]
pub struct HeadModel {
    pub kind: u8,
    pub marked: bool,
    pub structure: Option<Seq<char>>,
    pub size: int,
}

impl View for Head {
    type V = HeadModel;

    open spec fn view(&self) -> HeadModel {
        HeadModel {
            kind: self.kind,
            marked: self.marked,
            structure: match self.structure {
                Some(name) => Some(name@),
                None => None,
            },
            size: self.size as int,
        }
    }
}

/// The size of a value: one of five common ones, or written in one, two or
/// four bytes.
pub open spec fn size_at(bytes: Seq<u8>, pos: int, choice: int) -> Parsed<int> {
    if choice == 0 {
        Ok((1, pos))
    } else if choice == 1 {
        Ok((2, pos))
    } else if choice == 2 {
        Ok((4, pos))
    } else if choice == 3 {
        Ok((12, pos))
    } else if choice == 4 {
        Ok((16, pos))
    } else if choice == 5 {
        match reader::byte_at(bytes, pos) {
            Err(error) => Err(error),
            Ok((size, end)) => Ok((size as int, end)),
        }
    } else if choice == 6 {
        match reader::u16_at(bytes, pos) {
            Err(error) => Err(error),
            Ok((size, end)) => Ok((size as int, end)),
        }
    } else {
        match reader::u32_at(bytes, pos) {
            Err(error) => Err(error),
            Ok((size, end)) => Ok((size as int, end)),
        }
    }
}

/// The name of the structure of a value of type ten.
pub open spec fn structure_at(
    names: Seq<Seq<char>>,
    bytes: Seq<u8>,
    pos: int,
    kind: int,
) -> Parsed<Option<Seq<char>>> {
    if kind == 10 {
        match package::name_read(names, bytes, pos) {
            Err(error) => Err(error),
            Ok((name, end)) => Ok((Some(name), end)),
        }
    } else {
        Ok((None, pos))
    }
}

/// The head of a property. Its first byte holds the type in the low four bits,
/// the choice of the size in the next three, and a mark in the highest.
pub open spec fn head_at(names: Seq<Seq<char>>, bytes: Seq<u8>, pos: int) -> Parsed<HeadModel> {
    match reader::byte_at(bytes, pos) {
        Err(error) => Err(error),
        Ok((info, pos)) => match structure_at(names, bytes, pos, info as int % 16) {
            Err(error) => Err(error),
            Ok((structure, pos)) => match size_at(bytes, pos, info as int / 16 % 8) {
                Err(error) => Err(error),
                Ok((size, pos)) => {
                    let kind = (info % 16) as u8;
                    let marked = info >= 128;
                    if marked && kind != 3 {
                        match reader::array_index_at(bytes, pos) {
                            Err(error) => Err(error),
                            Ok((_, pos)) => Ok((HeadModel { kind, marked, structure, size }, pos)),
                        }
                    } else {
                        Ok((HeadModel { kind, marked, structure, size }, pos))
                    }
                },
            },
        },
    }
}

pub open spec fn no_progress() -> ErrorModel {
    ErrorModel::InvalidData("property list does not advance"@)
}

/// The value of a property. An array holds its length, and then property lists
/// under the name "Materials", or bytes. Values of other types are passed over.
pub open spec fn value_at(
    names: Seq<Seq<char>>,
    bytes: Seq<u8>,
    pos: int,
    name: Seq<char>,
    head: HeadModel,
) -> Parsed<ValueModel>
    decreases bytes.len() - pos, 2nat,
{
    if head.kind == 3 {
        Ok((ValueModel::Bool(head.marked), pos))
    } else if head.kind == 1 {
        match reader::byte_at(bytes, pos) {
            Err(error) => Err(error),
            Ok((byte, end)) => Ok((ValueModel::Byte(byte), end)),
        }
    } else if head.kind == 2 {
        match reader::i32_at(bytes, pos) {
            Err(error) => Err(error),
            Ok((number, end)) => Ok((ValueModel::Int(number), end)),
        }
    } else if head.kind == 4 {
        match reader::u32_at(bytes, pos) {
            Err(error) => Err(error),
            Ok((bits, end)) => Ok((ValueModel::Float(bits), end)),
        }
    } else if head.kind == 5 || head.kind == 6 {
        match reader::index_at(bytes, pos) {
            Err(error) => Err(error),
            Ok((index, end)) => Ok((ValueModel::Index(index), end)),
        }
    } else if head.kind == 9 {
        match reader::count_at(bytes, pos, "property array"@) {
            Err(error) => Err(error),
            Ok((count, start)) => if head.size < start - pos {
                Err(
                    ErrorModel::InvalidData(
                        "property array size is smaller than its length"@,
                    ),
                )
            } else if name == "Materials"@ {
                if !(pos < start <= bytes.len()) {
                    Err(no_progress())
                } else if pos + head.size > usize::MAX {
                    Err(ErrorModel::InvalidData("property array size overflow"@))
                } else {
                    match maps_from(names, bytes, start, count as nat, Seq::empty()) {
                        Err(error) => Err(error),
                        Ok((maps, end)) => if end == pos + head.size {
                            Ok((ValueModel::Maps(maps), end))
                        } else {
                            Err(ErrorModel::InvalidData("invalid Materials property array"@))
                        },
                    }
                }
            } else {
                match reader::bytes_at(bytes, start, head.size - (start - pos)) {
                    Err(error) => Err(error),
                    Ok((content, end)) => Ok((ValueModel::Bytes(content), end)),
                }
            },
        }
    } else if head.kind == 11 || head.kind == 10 && head.structure == Some("Vector"@) {
        match reader::vector_at(bytes, pos) {
            Err(error) => Err(error),
            Ok((vector, end)) => Ok((ValueModel::Vector(vector), end)),
        }
    } else if head.kind == 12 || head.kind == 10 && head.structure == Some("Rotator"@) {
        match reader::rotator_at(bytes, pos) {
            Err(error) => Err(error),
            Ok((rotator, end)) => Ok((ValueModel::Rotator(rotator), end)),
        }
    } else if head.kind == 10 && head.structure == Some("TerrainLayer"@) {
        match properties_from(names, bytes, pos, Seq::empty()) {
            Err(error) => Err(error),
            Ok((entry, end)) => Ok((ValueModel::Maps(seq![entry]), end)),
        }
    } else {
        match reader::behind(bytes, pos, head.size) {
            Err(error) => Err(error),
            Ok((_, end)) => Ok((ValueModel::Skipped, end)),
        }
    }
}

/// Consecutive property lists.
pub open spec fn maps_from(
    names: Seq<Seq<char>>,
    bytes: Seq<u8>,
    pos: int,
    count: nat,
    done: Seq<PropertiesModel>,
) -> Parsed<Seq<PropertiesModel>>
    decreases bytes.len() - pos, 1nat,
{
    if count == 0 {
        Ok((done, pos))
    } else {
        match properties_from(names, bytes, pos, Seq::empty()) {
            Err(error) => Err(error),
            Ok((entry, end)) => if pos < end <= bytes.len() {
                maps_from(names, bytes, end, (count - 1) as nat, done.push(entry))
            } else {
                Err(no_progress())
            },
        }
    }
}

/// A property list behind what was read of it. The name "None" ends it.
pub open spec fn properties_from(
    names: Seq<Seq<char>>,
    bytes: Seq<u8>,
    pos: int,
    done: PropertiesModel,
) -> Parsed<PropertiesModel>
    decreases bytes.len() - pos, 0nat,
{
    match package::name_read(names, bytes, pos) {
        Err(error) => Err(error),
        Ok((name, start)) => if name == "None"@ {
            Ok((done, start))
        } else {
            match head_at(names, bytes, start) {
                Err(error) => Err(error),
                Ok((head, start)) => if !(pos < start <= bytes.len()) {
                    Err(no_progress())
                } else {
                    match value_at(names, bytes, start, name, head) {
                        Err(error) => Err(error),
                        Ok((value, end)) => if !(pos < end <= bytes.len()) {
                            Err(no_progress())
                        } else {
                            properties_from(
                                names,
                                bytes,
                                end,
                                done.push(PropertyModel { name, value }),
                            )
                        },
                    }
                },
            }
        },
    }
}

/// The state of a script: a node and its class, a mask, an action, and an
/// offset where there is a node.
pub open spec fn state_at(bytes: Seq<u8>, pos: int) -> Parsed<()> {
    match reader::index_at(bytes, pos) {
        Err(error) => Err(error),
        Ok((node, pos)) => match reader::index_at(bytes, pos) {
            Err(error) => Err(error),
            Ok((_, pos)) => match reader::behind(bytes, pos, 12) {
                Err(error) => Err(error),
                Ok((_, pos)) => if node != 0 {
                    match reader::index_at(bytes, pos) {
                        Err(error) => Err(error),
                        Ok((_, pos)) => Ok(((), pos)),
                    }
                } else {
                    Ok(((), pos))
                },
            },
        },
    }
}

/// The properties of an object.
pub open spec fn properties_at(
    names: Seq<Seq<char>>,
    bytes: Seq<u8>,
    pos: int,
    flags: u32,
) -> Parsed<PropertiesModel> {
    match (if flags & HAS_STACK != 0 {
        state_at(bytes, pos)
    } else {
        Ok(((), pos))
    }) {
        Err(error) => Err(error),
        Ok((_, pos)) => if flags & NATIVE != 0 {
            Ok((Seq::empty(), pos))
        } else {
            properties_from(names, bytes, pos, Seq::empty())
        },
    }
}

proof fn lemma_head_advances(names: Seq<Seq<char>>, bytes: Seq<u8>, pos: int)
    requires
        0 <= pos,
    ensures
        head_at(names, bytes, pos) matches Ok((_, end)) ==> pos < end <= bytes.len(),
{
    reader::lemma_index_advances(bytes, pos + 1);
}

proof fn lemma_value_advances(
    names: Seq<Seq<char>>,
    bytes: Seq<u8>,
    pos: int,
    name: Seq<char>,
    head: HeadModel,
)
    requires
        0 <= pos <= bytes.len(),
        0 <= head.size,
    ensures
        value_at(names, bytes, pos, name, head) matches Ok((_, end)) ==> pos <= end
            <= bytes.len(),
    decreases bytes.len() - pos, 2nat,
{
    reader::lemma_index_advances(bytes, pos);
    if head.kind == 9 {
        match reader::count_at(bytes, pos, "property array"@) {
            Ok((count, start)) => {
                lemma_maps_advance(names, bytes, start, count as nat, Seq::empty());
            },
            Err(_) => {},
        }
    }
    lemma_properties_advance(names, bytes, pos, Seq::empty());
}

proof fn lemma_maps_advance(
    names: Seq<Seq<char>>,
    bytes: Seq<u8>,
    pos: int,
    count: nat,
    done: Seq<PropertiesModel>,
)
    requires
        0 <= pos <= bytes.len(),
    ensures
        maps_from(names, bytes, pos, count, done) matches Ok((_, end)) ==> pos <= end
            <= bytes.len(),
    decreases bytes.len() - pos, 1nat,
{
    if count > 0 {
        match properties_from(names, bytes, pos, Seq::empty()) {
            Ok((entry, end)) => if pos < end <= bytes.len() {
                lemma_maps_advance(names, bytes, end, (count - 1) as nat, done.push(entry));
            },
            Err(_) => {},
        }
    }
}

/// A property list takes at least one byte, and ends within the bytes.
proof fn lemma_properties_advance(
    names: Seq<Seq<char>>,
    bytes: Seq<u8>,
    pos: int,
    done: PropertiesModel,
)
    requires
        0 <= pos,
    ensures
        properties_from(names, bytes, pos, done) matches Ok((_, end)) ==> pos < end <= bytes.len(),
    decreases bytes.len() - pos, 0nat,
{
    reader::lemma_index_advances(bytes, pos);
    match package::name_read(names, bytes, pos) {
        Ok((name, start)) => if name != "None"@ {
            match head_at(names, bytes, start) {
                Ok((head, start)) => match value_at(names, bytes, start, name, head) {
                    Ok((value, end)) => if pos < end <= bytes.len() {
                        lemma_properties_advance(
                            names,
                            bytes,
                            end,
                            done.push(PropertyModel { name, value }),
                        );
                    },
                    Err(_) => {},
                },
                Err(_) => {},
            }
        },
        Err(_) => {},
    }
}

fn read_size(reader: &mut Reader<'_>, choice: u8) -> (result: Result<usize>)
    ensures
        ({
            let expected = size_at(old(reader).bytes@, old(reader).pos as int, choice as int);
            &&& final(reader).bytes == old(reader).bytes
            &&& match (result, expected) {
                (Ok(size), Ok((wanted, end))) => size == wanted && final(reader).pos == end,
                (Err(error), Err(wanted)) => error@ == wanted,
                _ => false,
            }
        }),
{
    if choice == 0 {
        Ok(1)
    } else if choice == 1 {
        Ok(2)
    } else if choice == 2 {
        Ok(4)
    } else if choice == 3 {
        Ok(12)
    } else if choice == 4 {
        Ok(16)
    } else if choice == 5 {
        let size: u8 = reader.u8()?;
        Ok(size as usize)
    } else if choice == 6 {
        let size: u16 = reader.u16()?;
        Ok(size as usize)
    } else {
        let size: u32 = reader.u32()?;
        Ok(size as usize)
    }
}

fn read_head(reader: &mut Reader<'_>, names: &Vec<String>) -> (result: Result<Head>)
    ensures
        reader::reads_view(
            *old(reader),
            *final(reader),
            result,
            head_at(text::texts(names@), old(reader).bytes@, old(reader).pos as int),
        ),
{
    let info: u8 = reader.u8()?;
    let kind: u8 = info % 16;
    let marked = info >= 128;
    let structure = if kind == 10 {
        Some(read_name(reader, names)?)
    } else {
        None
    };
    let size: usize = read_size(reader, info / 16 % 8)?;
    if marked && kind != 3 {
        let _element: u32 = reader.array_index()?;
    }
    Ok(Head { kind, marked, structure, size })
}

fn is_structure(head: &Head, name: &str) -> (same: bool)
    ensures
        same == (head@.structure == Some(name@)),
{
    match &head.structure {
        Some(structure) => same_text(structure.as_str(), name),
        None => false,
    }
}

fn read_value(
    reader: &mut Reader<'_>,
    names: &Vec<String>,
    name: &str,
    head: &Head,
) -> (result: Result<Value>)
    requires
        old(reader).pos <= old(reader).bytes@.len(),
    ensures
        reader::reads_view(
            *old(reader),
            *final(reader),
            result,
            value_at(
                text::texts(names@),
                old(reader).bytes@,
                old(reader).pos as int,
                name@,
                head@,
            ),
        ),
    decreases old(reader).bytes@.len() - old(reader).pos, 2nat,
{
    let ghost table = text::texts(names@);
    proof {
        reader::lemma_index_advances(reader.bytes@, reader.pos as int);
        lemma_properties_advance(table, reader.bytes@, reader.pos as int, Seq::empty());
    }
    if head.kind == 3 {
        Ok(Value::Bool(head.marked))
    } else if head.kind == 1 {
        let byte: u8 = reader.u8()?;
        Ok(Value::Byte(byte))
    } else if head.kind == 2 {
        let number: i32 = reader.i32()?;
        Ok(Value::Int(number))
    } else if head.kind == 4 {
        let bits: u32 = reader.u32()?;
        Ok(Value::Float(bits))
    } else if head.kind == 5 || head.kind == 6 {
        let index: i32 = reader.index()?;
        Ok(Value::Index(index))
    } else if head.kind == 9 {
        let start: usize = reader.pos;
        let count: i32 = reader.count("property array")?;
        let prefix: usize = reader.pos - start;
        if head.size < prefix {
            return Err(
                AppError::InvalidData(
                    "property array size is smaller than its length".to_owned(),
                ),
            );
        }
        if same_text(name, "Materials") {
            if start > usize::MAX - head.size {
                return Err(AppError::InvalidData("property array size overflow".to_owned()));
            }
            let maps = read_maps(reader, names, count)?;
            if reader.pos != start + head.size {
                return Err(
                    AppError::InvalidData("invalid Materials property array".to_owned()),
                );
            }
            let value = Value::Maps(maps);
            assert(value@ == ValueModel::Maps(maps_model(maps@))) by {
                assert(value@->Maps_0 =~= maps_model(maps@));
            }
            Ok(value)
        } else {
            let content = reader.bytes(head.size - prefix)?;
            Ok(Value::Bytes(content))
        }
    } else if head.kind == 11 || head.kind == 10 && is_structure(head, "Vector") {
        let vector = reader.vector()?;
        Ok(Value::Vector(vector))
    } else if head.kind == 12 || head.kind == 10 && is_structure(head, "Rotator") {
        let rotator = reader.rotator()?;
        Ok(Value::Rotator(rotator))
    } else if head.kind == 10 && is_structure(head, "TerrainLayer") {
        let entry = read_list(reader, names)?;
        let ghost model = entry@;
        let mut maps: Vec<Properties> = Vec::new();
        maps.push(entry);
        let value = Value::Maps(maps);
        assert(value@->Maps_0 =~= seq![model]);
        Ok(value)
    } else {
        reader.skip(head.size)?;
        Ok(Value::Skipped)
    }
}

spec fn maps_model(maps: Seq<Properties>) -> Seq<PropertiesModel> {
    maps.map_values(|entry: Properties| entry@)
}

fn read_maps(reader: &mut Reader<'_>, names: &Vec<String>, count: i32) -> (result: Result<
    Vec<Properties>,
>)
    requires
        old(reader).pos <= old(reader).bytes@.len(),
        0 <= count,
    ensures
        final(reader).bytes == old(reader).bytes,
        match (
            result,
            maps_from(
                text::texts(names@),
                old(reader).bytes@,
                old(reader).pos as int,
                count as nat,
                Seq::empty(),
            ),
        ) {
            (Ok(maps), Ok((expected, end))) => maps_model(maps@) == expected && final(reader).pos
                == end,
            (Err(error), Err(expected)) => error@ == expected,
            _ => false,
        },
    decreases old(reader).bytes@.len() - old(reader).pos, 1nat,
{
    let ghost table = text::texts(names@);
    let ghost bytes = reader.bytes@;
    let ghost start = reader.pos as int;
    let mut maps: Vec<Properties> = Vec::new();
    let mut left: i32 = count;
    assert(maps_model(maps@) =~= Seq::empty());
    while left > 0
        invariant
            0 <= left,
            table == text::texts(names@),
            reader.bytes == old(reader).bytes,
            bytes == reader.bytes@,
            start == old(reader).pos,
            start <= reader.pos <= bytes.len(),
            maps_from(table, bytes, start, count as nat, Seq::empty()) == maps_from(
                table,
                bytes,
                reader.pos as int,
                left as nat,
                maps_model(maps@),
            ),
        decreases left,
    {
        proof {
            lemma_properties_advance(table, bytes, reader.pos as int, Seq::empty());
        }
        let entry = read_list(reader, names)?;
        let ghost before = maps_model(maps@);
        maps.push(entry);
        assert(maps_model(maps@) =~= before.push(entry@));
        left = left - 1;
    }
    Ok(maps)
}

fn read_list(reader: &mut Reader<'_>, names: &Vec<String>) -> (result: Result<Properties>)
    ensures
        reader::reads_view(
            *old(reader),
            *final(reader),
            result,
            properties_from(
                text::texts(names@),
                old(reader).bytes@,
                old(reader).pos as int,
                Seq::empty(),
            ),
        ),
    decreases old(reader).bytes@.len() - old(reader).pos, 0nat,
{
    let ghost table = text::texts(names@);
    let ghost bytes = reader.bytes@;
    let ghost start = reader.pos as int;
    let mut properties = Properties { entries: Vec::new() };
    assert(properties@ =~= Seq::empty());
    loop
        invariant
            table == text::texts(names@),
            reader.bytes == old(reader).bytes,
            bytes == reader.bytes@,
            start == old(reader).pos,
            start <= reader.pos,
            properties_from(table, bytes, start, Seq::empty()) == properties_from(
                table,
                bytes,
                reader.pos as int,
                properties@,
            ),
        decreases bytes.len() - reader.pos,
    {
        let ghost here = reader.pos as int;
        proof {
            reader::lemma_index_advances(bytes, here);
        }
        let name = read_name(reader, names)?;
        if same_text(name.as_str(), "None") {
            return Ok(properties);
        }
        proof {
            lemma_head_advances(table, bytes, reader.pos as int);
        }
        let head = read_head(reader, names)?;
        proof {
            lemma_value_advances(table, bytes, reader.pos as int, name@, head@);
        }
        let value = read_value(reader, names, name.as_str(), &head)?;
        let ghost before = properties@;
        let ghost entry = PropertyModel { name: name@, value: value@ };
        properties.entries.push(Property { name, value });
        assert(properties@ =~= before.push(entry));
    }
}

/// Reads the properties of an object with flags.
pub fn read_properties(reader: &mut Reader<'_>, names: &Vec<String>, flags: u32) -> (result: Result<
    Properties,
>)
    ensures
        reader::reads_view(
            *old(reader),
            *final(reader),
            result,
            properties_at(
                text::texts(names@),
                old(reader).bytes@,
                old(reader).pos as int,
                flags,
            ),
        ),
{
    if flags & HAS_STACK != 0 {
        proof {
            reader::lemma_index_advances(reader.bytes@, reader.pos as int);
        }
        let node: i32 = reader.index()?;
        let _class: i32 = reader.index()?;
        reader.skip(12)?;
        if node != 0 {
            proof {
                reader::lemma_index_advances(reader.bytes@, reader.pos as int);
            }
            let _offset: i32 = reader.index()?;
        }
    }
    if flags & NATIVE != 0 {
        let properties = Properties { entries: Vec::new() };
        assert(properties@ =~= Seq::empty());
        return Ok(properties);
    }
    read_list(reader, names)
}

} // verus!
