//! Messages of the editor, and how they are shown.

use vstd::prelude::*;
use vstd::string::StringExecFns;

use crate::l2j::block::Direction;
use crate::text;
use crate::text::{chars_of, same_chars};

verus! {

/// A number in binary, without leading zeros.
pub open spec fn binary(value: nat) -> Seq<char>
    decreases value,
{
    if value < 2 {
        seq![text::digit(value)]
    } else {
        binary(value / 2).push(text::digit(value % 2))
    }
}

/// A mask in binary, with at least four digits.
pub open spec fn mask_digits(mask: u8) -> Seq<char> {
    let digits = binary(mask as nat);
    if digits.len() >= 4 {
        digits
    } else {
        Seq::new((4 - digits.len()) as nat, |i: int| '0') + digits
    }
}

fn push_binary(target: &mut String, value: u8)
    ensures
        final(target)@ == old(target)@ + binary(value as nat),
    decreases value,
{
    if value >= 2 {
        push_binary(target, value / 2);
    }
    if value % 2 == 0 {
        target.push('0');
    } else {
        target.push('1');
    }
    assert(target@ =~= old(target)@ + binary(value as nat));
}

/// Appends a mask in binary.
pub fn push_mask(target: &mut String, mask: u8)
    ensures
        final(target)@ == old(target)@ + mask_digits(mask),
{
    let zeros: usize = if mask < 2 {
        3
    } else if mask < 4 {
        2
    } else if mask < 8 {
        1
    } else {
        0
    };
    let mut i: usize = 0;
    assert(target@ =~= old(target)@ + Seq::new(0, |i: int| '0'));
    while i < zeros
        invariant
            i <= zeros,
            target@ == old(target)@ + Seq::new(i as nat, |i: int| '0'),
        decreases zeros - i,
    {
        target.push('0');
        i += 1;
        assert(target@ =~= old(target)@ + Seq::new(i as nat, |i: int| '0'));
    }
    push_binary(target, mask);
    proof {
        lemma_digits(mask as nat);
        assert(target@ =~= old(target)@ + mask_digits(mask));
    }
}

proof fn lemma_digits(value: nat)
    ensures
        value < 2 ==> binary(value).len() == 1,
        2 <= value < 4 ==> binary(value).len() == 2,
        4 <= value < 8 ==> binary(value).len() == 3,
        8 <= value ==> binary(value).len() >= 4,
    decreases value,
{
    if value >= 2 {
        lemma_digits(value / 2);
    }
}

/// The presets, from all sides open to all sides closed.
pub const NSWE_PRESET_MASKS: [u8; 16] = [15, 14, 13, 12, 11, 10, 9, 8, 7, 6, 5, 4, 3, 2, 1, 0];

/// How a side of a mask is called.
pub open spec fn side_state(mask: u8, direction: Direction) -> Seq<char> {
    if mask & direction.mask() != 0 {
        "aberto"@
    } else {
        "bloqueado"@
    }
}

/// How a side of a mask is called.
pub fn state_of(mask: u8, direction: Direction) -> (state: &'static str)
    ensures
        state@ == side_state(mask, direction),
{
    if mask & direction.bit() != 0 {
        "aberto"
    } else {
        "bloqueado"
    }
}

/// Explains a preset.
pub fn nswe_preset_tooltip(mask: u8) -> (tooltip: String)
    ensures
        tooltip@ == "Aplicar preset NSWE "@ + mask_digits(mask) + "\nN: "@ + side_state(
            mask,
            Direction::North,
        ) + " · S: "@ + side_state(mask, Direction::South) + " · W: "@ + side_state(
            mask,
            Direction::West,
        ) + " · E: "@ + side_state(mask, Direction::East),
{
    let mut tooltip = "Aplicar preset NSWE ".to_owned();
    push_mask(&mut tooltip, mask);
    tooltip.append("\nN: ");
    tooltip.append(state_of(mask, Direction::North));
    tooltip.append(" · S: ");
    tooltip.append(state_of(mask, Direction::South));
    tooltip.append(" · W: ");
    tooltip.append(state_of(mask, Direction::West));
    tooltip.append(" · E: ");
    tooltip.append(state_of(mask, Direction::East));
    tooltip
}

pub open spec fn starts_with(whole: Seq<char>, start: Seq<char>) -> bool {
    start.len() <= whole.len() && whole.take(start.len() as int) == start
}

/// Whether a text occurs at a place.
pub open spec fn occurs_at(whole: Seq<char>, part: Seq<char>, at: int) -> bool {
    at + part.len() <= whole.len() && whole.subrange(at, at + part.len()) == part
}

pub open spec fn contains(whole: Seq<char>, part: Seq<char>) -> bool {
    exists|at: int| 0 <= at && #[trigger] occurs_at(whole, part, at)
}

fn is_at(whole: &[char], part: &[char], at: usize) -> (found: bool)
    requires
        at <= whole@.len(),
    ensures
        found == occurs_at(whole@, part@, at as int),
{
    if whole.len() - at < part.len() {
        return false;
    }
    same_chars(vstd::slice::slice_subrange(whole, at, at + part.len()), part)
}

fn opens_with(whole: &[char], start: &str) -> (result: bool)
    ensures
        result == starts_with(whole@, start@),
{
    let start = chars_of(start);
    assert(start@.len() <= whole@.len() ==> whole@.subrange(0, start@.len() as int)
        =~= whole@.take(start@.len() as int));
    is_at(whole, start.as_slice(), 0)
}

fn holds(whole: &[char], part: &str) -> (result: bool)
    ensures
        result == contains(whole@, part@),
{
    let wanted = chars_of(part);
    let mut at: usize = 0;
    loop
        invariant
            at <= whole@.len(),
            wanted@ == part@,
            forall|i: int| 0 <= i < at ==> !#[trigger] occurs_at(whole@, part@, i),
        decreases whole.len() - at,
    {
        if is_at(whole, wanted.as_slice(), at) {
            return true;
        }
        if at == whole.len() {
            return false;
        }
        at += 1;
    }
}

/// How a message is coloured.
#[derive(Clone, Copy, Debug, PartialEq, Eq, Structural)]
pub enum StatusTone {
    Error,
    Success,
    Muted,
}

/// The tone of a message, by how it is worded.
pub open spec fn tone_of(status: Seq<char>) -> StatusTone {
    if starts_with(status, "Falha"@) || contains(status, "recusada"@) || contains(
        status,
        "inválid"@,
    ) {
        StatusTone::Error
    } else if starts_with(status, "Salvo"@) || starts_with(status, "Projeto carregado"@)
        || starts_with(status, "NSWE alterado"@) || starts_with(status, "NSWE liberado"@) {
        StatusTone::Success
    } else {
        StatusTone::Muted
    }
}

/// The tone of a message.
pub fn editor_status_tone(status: &str) -> (tone: StatusTone)
    ensures
        tone == tone_of(status@),
{
    let chars = chars_of(status);
    let status = chars.as_slice();
    if opens_with(status, "Falha") || holds(status, "recusada") || holds(status, "inválid") {
        StatusTone::Error
    } else if opens_with(status, "Salvo") || opens_with(status, "Projeto carregado") || opens_with(
        status,
        "NSWE alterado",
    ) || opens_with(status, "NSWE liberado") {
        StatusTone::Success
    } else {
        StatusTone::Muted
    }
}

/// Texts with a bar between them.
pub open spec fn joined(parts: Seq<Seq<char>>) -> Seq<char>
    decreases parts.len(),
{
    if parts.len() == 0 {
        Seq::empty()
    } else if parts.len() == 1 {
        parts[0]
    } else {
        joined(parts.drop_last()) + " | "@ + parts.last()
    }
}

/// Puts a bar between texts.
pub fn join(parts: &Vec<String>) -> (whole: String)
    ensures
        whole@ == joined(text::texts(parts@)),
{
    let mut whole = String::new();
    let mut i: usize = 0;
    let ghost list = text::texts(parts@);
    assert(whole@ =~= joined(list.take(0)));
    while i < parts.len()
        invariant
            i <= parts@.len(),
            list == text::texts(parts@),
            whole@ == joined(list.take(i as int)),
        decreases parts.len() - i,
    {
        proof {
            assert(list.take(i + 1).drop_last() =~= list.take(i as int));
            assert(list.take(i + 1).last() == parts@[i as int]@);
        }
        if i > 0 {
            whole.append(" | ");
        }
        whole.append(parts[i].as_str());
        i += 1;
        assert(whole@ =~= joined(list.take(i as int)));
    }
    assert(list.take(i as int) =~= list);
    whole
}

} // verus!
