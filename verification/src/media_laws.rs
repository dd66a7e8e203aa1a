//! Pictures, materials, uploads and messages, told by what is seen of them.

use vstd::prelude::*;

use crate::editor::{MapType, MemoryModel, OptionsModel};
use crate::heap;
use crate::heap::Entry;
use crate::icons;
use crate::l2j::block::Direction;
use crate::project;
use crate::project::AvailabilityModel;
use crate::scene;
use crate::scene::{BatchInfo, BlendFactor, PlanModel, VisualBlend};
use crate::status;
use crate::status::StatusTone;
use crate::text;
use crate::upload;

verus! {

/// Every pixel of a decoded picture has red, green, blue and opacity: those of
/// the file where it has them, its grey for the colours, and full opacity where
/// it has none. A picture by palette has no such pixels.
pub proof fn pixels_keep_their_colours(data: Seq<u8>, pixel: int)
    requires
        0 <= pixel,
    ensures
        4 * pixel + 3 < data.len() ==> forall|part: int|
            0 <= part < 4 ==> icons::rgba_of(data, 6)->0[4 * pixel + part] == #[trigger] data[4
                * pixel + part],
        3 * pixel + 2 < data.len() ==> {
            let rgba = icons::rgba_of(data, 2)->0;
            rgba[4 * pixel] == data[3 * pixel] && rgba[4 * pixel + 1] == data[3 * pixel + 1]
                && rgba[4 * pixel + 2] == data[3 * pixel + 2] && rgba[4 * pixel + 3] == 255
        },
        2 * pixel + 1 < data.len() ==> {
            let rgba = icons::rgba_of(data, 4)->0;
            rgba[4 * pixel] == data[2 * pixel] && rgba[4 * pixel + 1] == data[2 * pixel]
                && rgba[4 * pixel + 2] == data[2 * pixel] && rgba[4 * pixel + 3] == data[2 * pixel
                + 1]
        },
        pixel < data.len() ==> {
            let rgba = icons::rgba_of(data, 0)->0;
            rgba[4 * pixel] == data[pixel] && rgba[4 * pixel + 1] == data[pixel] && rgba[4 * pixel
                + 2] == data[pixel] && rgba[4 * pixel + 3] == 255
        },
        icons::rgba_of(data, 6)->0.len() == data.len(),
        icons::rgba_of(data, 2)->0.len() == 4 * (data.len() / 3),
        icons::rgba_of(data, 4)->0.len() == 4 * (data.len() / 2),
        icons::rgba_of(data, 0)->0.len() == 4 * data.len(),
        icons::rgba_of(data, 3) is None,
{
    assert((4 * pixel) / 4 == pixel && (4 * pixel) % 4 == 0);
    assert((4 * pixel + 1) / 4 == pixel && (4 * pixel + 1) % 4 == 1);
    assert((4 * pixel + 2) / 4 == pixel && (4 * pixel + 2) % 4 == 2);
    assert((4 * pixel + 3) / 4 == pixel && (4 * pixel + 3) % 4 == 3);
    if 3 * pixel + 2 < data.len() {
        assert(pixel < data.len() / 3);
    }
    if 2 * pixel + 1 < data.len() {
        assert(pixel < data.len() / 2);
    }
}

/// What a colour is multiplied with, in units of the full strength.
pub open spec fn share(factor: BlendFactor, surface: int, behind: int, opacity: int, full: int) -> int {
    match factor {
        BlendFactor::Zero => 0,
        BlendFactor::One => full,
        BlendFactor::Src => surface,
        BlendFactor::OneMinusSrc => full - surface,
        BlendFactor::SrcAlpha => opacity,
        BlendFactor::OneMinusSrcAlpha => full - opacity,
        BlendFactor::Dst => behind,
    }
}

/// The colour of a surface mixed with what is behind it, in units of the square
/// of the full strength. A surface that does not mix covers what is behind it.
pub open spec fn mixed(
    blend: VisualBlend,
    surface: int,
    behind: int,
    opacity: int,
    full: int,
) -> int {
    match scene::factors_of(blend) {
        None => surface * full,
        Some((front, back)) => surface * share(front, surface, behind, opacity, full) + behind
            * share(back, surface, behind, opacity, full),
    }
}

/// How materials mix with what is behind them. Alpha fades by opacity, and where
/// it is modulated the surface is tinted by what is behind. Translucent and
/// brightening surfaces add light, the first only as much as fits. Modulation
/// doubles the product, and darkening leaves what the surface does not take.
pub proof fn materials_mix_as_they_are_called(
    surface: int,
    behind: int,
    opacity: int,
    full: int,
)
    ensures
        mixed(VisualBlend::Opaque, surface, behind, opacity, full) == surface * full,
        mixed(VisualBlend::Alpha, surface, behind, opacity, full) == surface * opacity + behind * (
        full - opacity),
        mixed(VisualBlend::AlphaModulate, surface, behind, opacity, full) == surface * behind
            + behind * (full - opacity),
        mixed(VisualBlend::Translucent, surface, behind, opacity, full) == surface * full + behind
            * (full - surface),
        mixed(VisualBlend::Modulate, surface, behind, opacity, full) == 2 * (surface * behind),
        mixed(VisualBlend::Brighten, surface, behind, opacity, full) == surface * full + behind
            * full,
        mixed(VisualBlend::Darken, surface, behind, opacity, full) == behind * (full - surface),
{
    assert(surface * behind == behind * surface) by (nonlinear_arith);
    assert(surface * 0 == 0) by (nonlinear_arith);
}

proof fn lemma_plan(batches: Seq<BatchInfo>, count: nat)
    requires
        count <= batches.len() <= usize::MAX,
    ensures
        ({
            let plan = PlanModel::of(batches, count);
            &&& plan.batches.len() <= count
            &&& forall|i: int, j: int|
                0 <= i < j < plan.batches.len() ==> (#[trigger] plan.batches[i]).source < (
                #[trigger] plan.batches[j]).source
            &&& forall|i: int| 0 <= i < plan.batches.len() ==> (#[trigger] plan.batches[i]).source < count
            &&& forall|s: int|
                0 <= s < count && (#[trigger] batches[s]).index_count > 0 && batches[s].key.blend
                    != VisualBlend::Invisible ==> exists|i: int|
                    0 <= i < plan.batches.len() && (#[trigger] plan.batches[i]).source == s
            &&& forall|i: int|
                0 <= i < plan.batches.len() ==> batches[(
                #[trigger] plan.batches[i]).source as int].index_count > 0
                    && batches[plan.batches[i].source as int].key.blend != VisualBlend::Invisible
        }),
    decreases count,
{
    if count > 0 {
        let fewer = (count - 1) as nat;
        lemma_plan(batches, fewer);
        let before = PlanModel::of(batches, fewer);
        let plan = PlanModel::of(batches, count);
        assert forall|s: int|
            0 <= s < count && (#[trigger] batches[s]).index_count > 0 && batches[s].key.blend
                != VisualBlend::Invisible implies exists|i: int|
            0 <= i < plan.batches.len() && (#[trigger] plan.batches[i]).source == s by {
            if s < fewer {
                let i = choose|i: int|
                    0 <= i < before.batches.len() && (#[trigger] before.batches[i]).source == s;
                assert(plan.batches[i].source == s);
            } else {
                assert(plan.batches[before.batches.len() as int].source == s);
            }
        }
    }
}

/// A scene draws the batches that have triangles and can be seen, all of them,
/// once each and in their order. Each is drawn for its own material, and the
/// opaque ones are told from those that mix.
pub proof fn scenes_draw_what_can_be_seen(batches: Seq<BatchInfo>, source: int, place: int)
    requires
        batches.len() <= usize::MAX,
        0 <= source < batches.len(),
    ensures
        ({
            let plan = PlanModel::of(batches, batches.len());
            &&& (exists|i: int|
                0 <= i < plan.batches.len() && (#[trigger] plan.batches[i]).source == source) == (
            batches[source].index_count > 0 && batches[source].key.blend != VisualBlend::Invisible)
            &&& forall|i: int, j: int|
                0 <= i < j < plan.batches.len() ==> (#[trigger] plan.batches[i]).source < (
                #[trigger] plan.batches[j]).source
            &&& 0 <= place < plan.batches.len() ==> {
                let key = batches[plan.batches[place].source as int].key;
                &&& plan.pipelines[plan.batches[place].pipeline as int] == key
                &&& plan.opaque.contains(place as usize) == (key.blend == VisualBlend::Opaque)
                &&& plan.blended.contains(place as usize) == (key.blend != VisualBlend::Opaque)
            }
        }),
{
    lemma_plan(batches, batches.len());
    let plan = PlanModel::of(batches, batches.len());
    if 0 <= place < plan.batches.len() {
        scene::planned_batches_are_ordered(batches, batches.len(), place);
    }
}

/// The rows of an image are padded to 256 bytes, and to no more.
pub proof fn rows_are_padded(width: nat, height: nat)
    ensures
        upload::image_bytes(width, height) == upload::image_bytes(width, 1) * height,
        upload::image_bytes(width, 1) % 256 == 0,
        4 * width <= upload::image_bytes(width, 1) < 4 * width + 256,
{
    let row = (4 * width + 255) / 256 * 256;
    assert(row * 1 == row);
    assert(row % 256 == 0);
}

/// A texture takes up its image and a texture of half the size, down to one
/// pixel; no side becomes shorter than that.
pub proof fn textures_halve_down_to_a_pixel(width: nat, height: nat)
    requires
        width > 0,
        height > 0,
    ensures
        upload::texture_bytes(1, 1) == 256,
        width > 1 && height > 1 ==> upload::texture_bytes(width, height) == upload::image_bytes(
            width,
            height,
        ) + upload::texture_bytes(width / 2, height / 2),
        width > 1 ==> upload::texture_bytes(width, 1) == upload::image_bytes(width, 1)
            + upload::texture_bytes(width / 2, 1),
        height > 1 ==> upload::texture_bytes(1, height) == upload::image_bytes(1, height)
            + upload::texture_bytes(1, height / 2),
{
    reveal_with_fuel(upload::texture_bytes, 2);
    assert(upload::image_bytes(1, 1) == 256);
}

/// What waits is handed over exactly when it and the next upload together are
/// more than sixteen mebibytes.
pub proof fn full_batches_are_handed_over(pending: int, bytes: int)
    requires
        0 < pending,
        0 < bytes,
    ensures
        upload::overflows(pending, bytes) == (pending + bytes > 16_777_216),
        !upload::overflows(0, bytes),
        !upload::overflows(pending, 0),
{
}

/// A mask of four sides is written as four digits: north, south, west, east.
pub proof fn masks_are_written_side_by_side(mask: u8)
    requires
        mask < 16,
    ensures
        status::mask_digits(mask) == seq![
            if mask & 8 != 0 {
                '1'
            } else {
                '0'
            },
            if mask & 4 != 0 {
                '1'
            } else {
                '0'
            },
            if mask & 2 != 0 {
                '1'
            } else {
                '0'
            },
            if mask & 1 != 0 {
                '1'
            } else {
                '0'
            },
        ],
{
    assert((mask & 8 != 0) == (mask / 8 % 2 == 1) && (mask & 4 != 0) == (mask / 4 % 2 == 1) && (mask
        & 2 != 0) == (mask / 2 % 2 == 1) && (mask & 1 != 0) == (mask % 2 == 1)) by (bit_vector)
        requires
            mask < 16,
    ;
    reveal_with_fuel(status::binary, 5);
    assert(text::digit(0) == '0' && text::digit(1) == '1');
    let digits = status::mask_digits(mask);
    assert(digits =~= seq![
        text::digit((mask / 8 % 2) as nat),
        text::digit((mask / 4 % 2) as nat),
        text::digit((mask / 2 % 2) as nat),
        text::digit((mask % 2) as nat),
    ]);
}

/// A side of a preset is called open or blocked by its bit.
pub proof fn sides_are_called_by_their_bits(mask: u8)
    ensures
        (status::side_state(mask, Direction::North) == "aberto"@) == (mask & 8 != 0),
        (status::side_state(mask, Direction::South) == "aberto"@) == (mask & 4 != 0),
        (status::side_state(mask, Direction::West) == "aberto"@) == (mask & 2 != 0),
        (status::side_state(mask, Direction::East) == "aberto"@) == (mask & 1 != 0),
        forall|direction: Direction| #[trigger]
            status::side_state(mask, direction) == "aberto"@ || status::side_state(mask, direction)
                == "bloqueado"@,
{
    reveal_strlit("aberto");
    reveal_strlit("bloqueado");
    assert("aberto"@.len() == 6 && "bloqueado"@.len() == 9);
}

proof fn lemma_contains(front: Seq<char>, part: Seq<char>, back: Seq<char>)
    ensures
        status::contains(front + part + back, part),
{
    let whole = front + part + back;
    assert(whole.subrange(front.len() as int, (front.len() + part.len()) as int) =~= part);
    assert(status::occurs_at(whole, part, front.len() as int));
}

/// Messages of failures, refusals and invalid things are errors, whatever else
/// they say.
pub proof fn failures_are_errors(front: Seq<char>, back: Seq<char>)
    ensures
        status::tone_of("Falha"@ + back) == StatusTone::Error,
        status::tone_of(front + "recusada"@ + back) == StatusTone::Error,
        status::tone_of(front + "inválid"@ + back) == StatusTone::Error,
{
    assert(("Falha"@ + back).take("Falha"@.len() as int) =~= "Falha"@);
    lemma_contains(front, "recusada"@, back);
    lemma_contains(front, "inválid"@, back);
}

/// Messages of saves and loaded projects tell success, unless something in them
/// was refused or is invalid.
pub proof fn results_are_successes(back: Seq<char>)
    ensures
        ({
            let saved = "Salvo"@ + back;
            !status::contains(saved, "recusada"@) && !status::contains(saved, "inválid"@)
                ==> status::tone_of(saved) == StatusTone::Success
        }),
        ({
            let loaded = "Projeto carregado"@ + back;
            !status::contains(loaded, "recusada"@) && !status::contains(loaded, "inválid"@)
                ==> status::tone_of(loaded) == StatusTone::Success
        }),
{
    reveal_strlit("Falha");
    reveal_strlit("Salvo");
    reveal_strlit("Projeto carregado");
    let saved = "Salvo"@ + back;
    let loaded = "Projeto carregado"@ + back;
    assert(saved.take("Salvo"@.len() as int) =~= "Salvo"@);
    assert(loaded.take("Projeto carregado"@.len() as int) =~= "Projeto carregado"@);
    assert("Falha"@[0] == 'F' && saved[0] == 'S' && loaded[0] == 'P');
    if status::starts_with(saved, "Falha"@) {
        assert(saved.take("Falha"@.len() as int)[0] == 'F');
    }
    if status::starts_with(loaded, "Falha"@) {
        assert(loaded.take("Falha"@.len() as int)[0] == 'F');
    }
}

/// The map of a region is the package of the flavour asked for where the client
/// has it, and else that of the other one, about which the user is asked. The
/// classic package of a region carries `_Classic` behind its name.
pub proof fn flavours_are_looked_for_in_turn(region: Seq<char>, has_selected: bool, has_other: bool)
    ensures
        ({
            let classic = region + seq!['_', 'C', 'l', 'a', 's', 's', 'i', 'c'];
            &&& project::availability(region, MapType::Classic, has_selected, has_other) == if has_selected {
                AvailabilityModel::Selected(classic)
            } else if has_other {
                AvailabilityModel::OnlyOther(MapType::Normal, region)
            } else {
                AvailabilityModel::Neither
            }
            &&& project::availability(region, MapType::Normal, has_selected, has_other) == if has_selected {
                AvailabilityModel::Selected(region)
            } else if has_other {
                AvailabilityModel::OnlyOther(MapType::Classic, classic)
            } else {
                AvailabilityModel::Neither
            }
        }),
{
    reveal_strlit("_Classic");
    assert("_Classic"@ =~= seq!['_', 'C', 'l', 'a', 's', 's', 'i', 'c']);
}

/// What the command line says comes before what was remembered, field by field.
pub proof fn command_line_comes_first(
    options: OptionsModel,
    memory: MemoryModel,
    loaded: bool,
)
    ensures
        ({
            let ui = project::first_ui(options, memory, loaded);
            &&& options.input is Some ==> ui.open_path == options.input->0
            &&& options.input is None ==> ui.open_path == memory.geodata_path
            &&& options.client_root is Some ==> ui.client_root == options.client_root->0
            &&& options.client_root is None ==> ui.client_root == memory.client_root
            &&& options.map_type is Some ==> ui.map_type == options.map_type->0
            &&& options.map_type is None ==> ui.map_type == memory.map_type
            &&& ui.theme == memory.theme
            &&& ui.brush_width == 1 && ui.brush_height == 1 && ui.visual_stride == 1
            &&& ui.selection.len() == 0 && !ui.selection_hidden
        }),
{
}

/// The number that digits write.
pub open spec fn number_written(digits: Seq<char>) -> int
    decreases digits.len(),
{
    if digits.len() == 0 {
        0
    } else {
        10 * number_written(digits.drop_last()) + (digits.last() as int - 48)
    }
}

/// A number is written in decimal digits, without a zero in front.
pub proof fn numbers_are_written_in_decimal(value: nat)
    ensures
        number_written(text::decimal(value)) == value,
        forall|i: int|
            0 <= i < text::decimal(value).len() ==> '0' <= #[trigger] text::decimal(value)[i]
                <= '9',
        text::decimal(value).len() > 0,
        value > 0 ==> text::decimal(value)[0] != '0',
    decreases value,
{
    if value < 10 {
        let digits = text::decimal(value);
        assert(digits.drop_last() =~= Seq::empty());
        assert(number_written(digits.drop_last()) == 0);
        assert(digits.last() as int == 48 + value);
    } else {
        numbers_are_written_in_decimal(value / 10);
        let front = text::decimal(value / 10);
        let digits = text::decimal(value);
        assert(digits.drop_last() =~= front);
        assert(digits.last() as int == 48 + value % 10);
    }
}

/// A number below zero is written as a minus sign and the number above zero.
pub proof fn negative_numbers_have_a_sign(value: int)
    ensures
        value < 0 ==> text::signed_decimal(value) == seq!['-'] + text::decimal((-value) as nat),
        value >= 0 ==> text::signed_decimal(value) == text::decimal(value as nat),
{
}

proof fn lemma_front(value: Seq<char>) -> (front: Seq<char>)
    ensures
        value == front + text::trimmed_front(value),
        forall|i: int| 0 <= i < front.len() ==> text::is_space(#[trigger] front[i]),
        text::trimmed_front(value).len() > 0 ==> !text::is_space(text::trimmed_front(value)[0]),
    decreases value.len(),
{
    if value.len() > 0 && text::is_space(value[0]) {
        let rest = lemma_front(value.skip(1));
        let front = seq![value[0]] + rest;
        assert(value =~= seq![value[0]] + value.skip(1));
        assert(value.skip(1) == rest + text::trimmed_front(value.skip(1)));
        assert(value =~= front + text::trimmed_front(value));
        front
    } else {
        assert(value =~= Seq::<char>::empty() + value);
        Seq::empty()
    }
}

proof fn lemma_back(value: Seq<char>) -> (back: Seq<char>)
    ensures
        value == text::trimmed_back(value) + back,
        forall|i: int| 0 <= i < back.len() ==> text::is_space(#[trigger] back[i]),
        text::trimmed_back(value).len() > 0 ==> !text::is_space(text::trimmed_back(value).last()),
    decreases value.len(),
{
    if value.len() > 0 && text::is_space(value.last()) {
        let rest = lemma_back(value.drop_last());
        let back = rest.push(value.last());
        assert(value =~= value.drop_last().push(value.last()));
        assert(value.drop_last() == text::trimmed_back(value.drop_last()) + rest);
        assert(value =~= text::trimmed_back(value) + back);
        back
    } else {
        assert(value =~= value + Seq::<char>::empty());
        Seq::empty()
    }
}

/// Trimming takes white space off both ends, all of it and nothing else.
pub proof fn trimming_takes_off_the_ends(value: Seq<char>) -> (ends: (Seq<char>, Seq<char>))
    ensures
        value == ends.0 + text::trimmed(value) + ends.1,
        forall|i: int| 0 <= i < ends.0.len() ==> text::is_space(#[trigger] ends.0[i]),
        forall|i: int| 0 <= i < ends.1.len() ==> text::is_space(#[trigger] ends.1[i]),
        text::trimmed(value).len() > 0 ==> !text::is_space(text::trimmed(value)[0])
            && !text::is_space(text::trimmed(value).last()),
{
    let front = lemma_front(value);
    let middle = text::trimmed_front(value);
    let back = lemma_back(middle);
    assert(value =~= front + text::trimmed(value) + back);
    if text::trimmed(value).len() > 0 {
        assert(text::trimmed(value)[0] == middle[0]);
    }
    (front, back)
}

/// The first entry of a queue has the lowest estimate; of those, the lowest cost;
/// and of those, the lowest place.
pub proof fn queues_go_by_estimate_cost_and_place(
    queue: vstd::multiset::Multiset<Entry>,
    entry: Entry,
    other: Entry,
)
    requires
        heap::is_first(queue, entry),
        queue.count(other) > 0,
    ensures
        entry.estimate <= other.estimate,
        entry.estimate == other.estimate ==> entry.cost <= other.cost,
        entry.estimate == other.estimate && entry.cost == other.cost ==> entry.node <= other.node,
{
    assert(!other.before(entry));
}

/// Spaces, tabs and line ends can be trimmed; what can be seen of the first 128
/// characters cannot.
pub proof fn visible_characters_are_no_space(c: char)
    ensures
        '!' <= c <= '~' ==> !text::is_space(c),
        c == ' ' || c == '\t' || c == '\n' || c == '\r' ==> text::is_space(c),
        c < '\t' ==> !text::is_space(c),
        '\r' < c < ' ' ==> !text::is_space(c),
{
}

/// The glyphs of sixteen masks make one picture of 1,024 by 1,024 points with four
/// bytes each.
pub proof fn atlas_has_its_size(glyphs: Seq<Seq<u8>>)
    ensures
        icons::atlas_of(glyphs).len() == 4 * 1_024 * 1_024,
{
}

/// The first of a queue is in it, however often.
pub proof fn queues_have_a_first(queue: vstd::multiset::Multiset<Entry>, entry: Entry)
    requires
        queue.count(entry) > 0,
        forall|other: Entry| #[trigger] queue.count(other) > 0 ==> entry.estimate < other.estimate
            || entry == other,
    ensures
        heap::is_first(queue, entry),
        forall|other: Entry| heap::is_first(queue, other) ==> other == entry,
{
    assert forall|other: Entry| heap::is_first(queue, other) implies other == entry by {
        assert(queue.count(other) > 0);
        assert(!entry.before(other));
    }
    assert forall|other: Entry| queue.count(other) > 0 implies !(#[trigger] other.before(
        entry,
    )) by {
        assert(entry.estimate < other.estimate || entry == other);
    }
}

} // verus!
