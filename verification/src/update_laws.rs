//! Which releases are updates, told by their numbers, names and digests.

use vstd::prelude::*;

use crate::path_laws;
use crate::text;
use crate::update;
use crate::update::{Release, VersionModel};

verus! {

/// The first number that differs decides between two versions: the one with the
/// greater number is newer, whatever follows. No version is newer than itself.
pub proof fn greater_numbers_are_newer(left: VersionModel, right: VersionModel)
    ensures
        left.major > right.major ==> update::newer(left, right) && !update::newer(right, left),
        left.major == right.major && left.minor > right.minor ==> update::newer(left, right)
            && !update::newer(right, left),
        left.major == right.major && left.minor == right.minor && left.patch > right.patch
            ==> update::newer(left, right) && !update::newer(right, left),
        !update::newer(left, left),
{
}

/// A hexadecimal digit as it is written, in lower or upper case.
pub open spec fn writes_digit(c: char, value: int) -> bool {
    if value < 10 {
        c as int == 48 + value
    } else {
        c as int == 97 + value - 10 || c as int == 65 + value - 10
    }
}

/// A text that writes a digest: `sha256:` and two digits for each byte, the high
/// one first.
pub open spec fn writes_digest(value: Seq<char>, digest: Seq<u8>) -> bool {
    &&& digest.len() == 32
    &&& value.len() == 71
    &&& value.take(7) == seq!['s', 'h', 'a', '2', '5', '6', ':']
    &&& forall|i: int|
        0 <= i < 32 ==> writes_digit(value[7 + 2 * i], #[trigger] digest[i] as int / 16)
            && writes_digit(value[8 + 2 * i], digest[i] as int % 16)
}

/// A text that writes a digest is read as that digest.
pub proof fn written_digests_are_read(value: Seq<char>, digest: Seq<u8>)
    requires
        writes_digest(value, digest),
    ensures
        update::digest_in(value) == Some(digest),
{
    reveal_strlit("sha256:");
    assert("sha256:"@ =~= seq!['s', 'h', 'a', '2', '5', '6', ':']);
    let digits = value.skip(7);
    assert forall|i: int| 0 <= i < 64 implies update::hex_value(#[trigger] digits[i]) is Some by {
        let byte = digest[i / 2];
        assert(writes_digit(value[7 + 2 * (i / 2)], byte as int / 16));
        assert(writes_digit(value[8 + 2 * (i / 2)], byte as int % 16));
        assert(digits[i] == value[7 + i]);
        if i % 2 == 0 {
            assert(7 + 2 * (i / 2) == 7 + i);
        } else {
            assert(8 + 2 * (i / 2) == 7 + i);
        }
    }
    let read = update::digest_in(value)->0;
    assert forall|i: int| 0 <= i < 32 implies read[i] == digest[i] by {
        assert(writes_digit(value[7 + 2 * i], digest[i] as int / 16));
        assert(writes_digit(value[8 + 2 * i], digest[i] as int % 16));
        assert(digits[2 * i] == value[7 + 2 * i]);
        assert(digits[2 * i + 1] == value[8 + 2 * i]);
    }
    assert(read =~= digest);
}

/// A digest that is read was written so.
pub proof fn read_digests_were_written(value: Seq<char>)
    requires
        update::digest_in(value) is Some,
    ensures
        writes_digest(value, update::digest_in(value)->0),
{
    reveal_strlit("sha256:");
    assert("sha256:"@ =~= seq!['s', 'h', 'a', '2', '5', '6', ':']);
    let digits = value.skip(7);
    let read = update::digest_in(value)->0;
    assert forall|i: int| 0 <= i < 32 implies writes_digit(
        value[7 + 2 * i],
        #[trigger] read[i] as int / 16,
    ) && writes_digit(value[8 + 2 * i], read[i] as int % 16) by {
        assert(digits[2 * i] == value[7 + 2 * i]);
        assert(digits[2 * i + 1] == value[8 + 2 * i]);
        assert(update::hex_value(digits[2 * i]) is Some);
        assert(update::hex_value(digits[2 * i + 1]) is Some);
    }
}

/// Whether a file of a release is the editor, in upper or lower case.
pub open spec fn is_the_editor(name: Seq<char>) -> bool {
    path_laws::says(
        name,
        seq![
            'g', 'e', 'o', 'd', 'a', 't', 'a', 'e', 'd', 'i', 't', 'o', 'r', '.', 'e', 'x', 'e',
        ],
    )
}

proof fn lemma_editor(name: Seq<char>)
    ensures
        (text::ascii_lower(name) == text::ascii_lower("GeodataEditor.exe"@)) == is_the_editor(name),
{
    reveal_strlit("GeodataEditor.exe");
    let word = seq![
        'g', 'e', 'o', 'd', 'a', 't', 'a', 'e', 'd', 'i', 't', 'o', 'r', '.', 'e', 'x', 'e',
    ];
    assert(text::ascii_lower("GeodataEditor.exe"@) =~= word);
    path_laws::lemma_says(name, word);
}

proof fn lemma_first_editor(release: Release, index: nat)
    requires
        index <= release.assets@.len(),
    ensures
        match update::editor_from(release.assets@, index) {
            Some(asset) => exists|i: int|
                index <= i < release.assets@.len() && #[trigger] release.assets@[i] == asset
                    && is_the_editor(asset.name@) && forall|j: int|
                    index <= j < i ==> !is_the_editor((#[trigger] release.assets@[j]).name@),
            None => forall|j: int|
                index <= j < release.assets@.len() ==> !is_the_editor(
                    (#[trigger] release.assets@[j]).name@,
                ),
        },
    decreases release.assets@.len() - index,
{
    if index < release.assets@.len() {
        lemma_editor(release.assets@[index as int].name@);
        lemma_first_editor(release, index + 1);
        if update::is_editor(release.assets@[index as int]) {
            assert(release.assets@[index as int] == update::editor_from(
                release.assets@,
                index,
            )->0);
        } else {
            match update::editor_from(release.assets@, index + 1) {
                Some(asset) => {
                    let i = choose|i: int|
                        index + 1 <= i < release.assets@.len() && #[trigger] release.assets@[i]
                            == asset && is_the_editor(asset.name@) && forall|j: int|
                            index + 1 <= j < i ==> !is_the_editor(
                                (#[trigger] release.assets@[j]).name@,
                            );
                    assert forall|j: int| index <= j < i implies !is_the_editor(
                        (#[trigger] release.assets@[j]).name@,
                    ) by {}
                },
                None => {},
            }
        }
    }
}

/// What is offered is the first file of the release that is called
/// `GeodataEditor.exe`, in upper or lower case: its address, its size and the
/// digest that is written beside it. Nothing is offered without such a file, of
/// an empty one, without a digest, or of a release that is not newer.
pub proof fn updates_are_the_editor_of_a_newer_release(release: Release, current: VersionModel)
    ensures
        match update::selected(release, current) {
            Some(found) => {
                &&& update::newer(found.version, current)
                &&& update::tag_version(release.tag_name@) == Some(found.version)
                &&& exists|i: int|
                    0 <= i < release.assets@.len() && is_the_editor(
                        (#[trigger] release.assets@[i]).name@,
                    ) && (forall|j: int|
                        0 <= j < i ==> !is_the_editor((#[trigger] release.assets@[j]).name@))
                        && found.download_url == release.assets@[i].browser_download_url@
                        && found.size == release.assets@[i].size && found.size > 0
                        && release.assets@[i].digest is Some && writes_digest(
                        release.assets@[i].digest->0@,
                        found.sha256,
                    )
            },
            None => {
                ||| update::tag_version(release.tag_name@) is None
                ||| !update::newer(update::tag_version(release.tag_name@)->0, current)
                ||| forall|j: int|
                    0 <= j < release.assets@.len() ==> !is_the_editor(
                        (#[trigger] release.assets@[j]).name@,
                    )
                ||| exists|i: int|
                    0 <= i < release.assets@.len() && is_the_editor(
                        (#[trigger] release.assets@[i]).name@,
                    ) && (release.assets@[i].size == 0 || release.assets@[i].digest is None
                        || !exists|digest: Seq<u8>|
                        writes_digest(release.assets@[i].digest->0@, digest))
            },
        },
{
    lemma_first_editor(release, 0);
    if let Some(asset) = update::editor_from(release.assets@, 0) {
        if let Some(digest) = asset.digest {
            if update::digest_in(digest@) is Some {
                read_digests_were_written(digest@);
            } else {
                assert(!exists|other: Seq<u8>| writes_digest(digest@, other)) by {
                    if exists|other: Seq<u8>| writes_digest(digest@, other) {
                        let other = choose|other: Seq<u8>| writes_digest(digest@, other);
                        written_digests_are_read(digest@, other);
                    }
                }
            }
        }
    }
}

/// A text that can stand between the dots of a version.
pub open spec fn is_part(part: Seq<char>) -> bool {
    part.len() > 0 && forall|i: int|
        0 <= i < part.len() ==> (#[trigger] part[i]) != '.' && part[i] != '-' && part[i] != '+'
}

/// What follows the numbers of a version: nothing, or a text that a `-` or a `+`
/// opens.
pub open spec fn is_suffix(suffix: Seq<char>) -> bool {
    suffix.len() == 0 || suffix[0] == '-' || suffix[0] == '+'
}

proof fn lemma_suffix_start(core: Seq<char>, suffix: Seq<char>)
    requires
        is_suffix(suffix),
        forall|i: int| 0 <= i < core.len() ==> (#[trigger] core[i]) != '-' && core[i] != '+',
    ensures
        update::suffix_start(core + suffix) == core.len(),
    decreases core.len(),
{
    let whole = core + suffix;
    if core.len() > 0 {
        assert(whole[0] == core[0]);
        assert(whole.skip(1) =~= core.skip(1) + suffix);
        lemma_suffix_start(core.skip(1), suffix);
    } else {
        assert(whole =~= suffix);
    }
}

proof fn lemma_no_dots(part: Seq<char>)
    requires
        forall|i: int| 0 <= i < part.len() ==> (#[trigger] part[i]) != '.',
    ensures
        update::dots(part) == 0,
    decreases part.len(),
{
    if part.len() > 0 {
        assert(part.last() == part[part.len() - 1]);
        assert forall|i: int| 0 <= i < part.drop_last().len() implies (
        #[trigger] part.drop_last()[i]) != '.' by {
            assert(part[i] != '.');
        }
        lemma_no_dots(part.drop_last());
    }
}

proof fn lemma_dots(front: Seq<char>, part: Seq<char>)
    requires
        forall|i: int| 0 <= i < part.len() ==> (#[trigger] part[i]) != '.',
    ensures
        update::dots(front + seq!['.'] + part) == update::dots(front) + 1,
    decreases part.len(),
{
    let whole = front + seq!['.'] + part;
    if part.len() > 0 {
        assert(whole.last() == part[part.len() - 1]);
        assert(whole.drop_last() =~= front + seq!['.'] + part.drop_last());
        lemma_dots(front, part.drop_last());
    } else {
        assert(whole.drop_last() =~= front);
        assert(whole.last() == '.');
    }
}

/// A version with one or two numbers is completed by zeros in front of what
/// follows them. One with three is not completed.
pub proof fn short_versions_are_completed(
    major: Seq<char>,
    minor: Seq<char>,
    patch: Seq<char>,
    suffix: Seq<char>,
)
    requires
        is_part(major),
        is_part(minor),
        is_part(patch),
        is_suffix(suffix),
    ensures
        update::completed(major + suffix) == Some(major + seq!['.', '0', '.', '0'] + suffix),
        update::completed(major + seq!['.'] + minor + suffix) == Some(
            major + seq!['.'] + minor + seq!['.', '0'] + suffix,
        ),
        update::completed(major + seq!['.'] + minor + seq!['.'] + patch + suffix) is None,
{
    reveal_strlit(".0");
    reveal_strlit(".0.0");
    assert(".0"@ =~= seq!['.', '0']);
    assert(".0.0"@ =~= seq!['.', '0', '.', '0']);
    let one = major;
    let two = major + seq!['.'] + minor;
    let three = two + seq!['.'] + patch;
    lemma_no_dots(major);
    lemma_dots(major, minor);
    lemma_dots(two, patch);
    lemma_suffix_start(one, suffix);
    assert forall|i: int| 0 <= i < two.len() implies (#[trigger] two[i]) != '-' && two[i] != '+' by {
        if i < major.len() {
            assert(two[i] == major[i]);
        } else if i > major.len() {
            assert(two[i] == minor[i - major.len() - 1]);
        }
    }
    lemma_suffix_start(two, suffix);
    assert forall|i: int| 0 <= i < three.len() implies (#[trigger] three[i]) != '-' && three[i]
        != '+' by {
        if i < two.len() {
            assert(three[i] == two[i]);
        } else if i > two.len() {
            assert(three[i] == patch[i - two.len() - 1]);
        }
    }
    lemma_suffix_start(three, suffix);
    assert((one + suffix).take(one.len() as int) =~= one);
    assert((one + suffix).skip(one.len() as int) =~= suffix);
    assert((two + suffix).take(two.len() as int) =~= two);
    assert((two + suffix).skip(two.len() as int) =~= suffix);
    assert((three + suffix).take(three.len() as int) =~= three);
    assert forall|i: int| 0 < i < one.len() implies !(one[i - 1] == '.' && #[trigger] one[i]
        == '.') by {}
    assert(update::parts_filled(one));
    assert forall|i: int| 0 < i < two.len() implies !(two[i - 1] == '.' && #[trigger] two[i]
        == '.') by {
        if i < major.len() {
            assert(two[i] == major[i]);
        } else if i == major.len() {
            assert(two[i - 1] == major[i - 1]);
        } else {
            assert(two[i] == minor[i - major.len() - 1]);
        }
    }
    assert(two[0] == major[0]);
    assert(two.last() == minor[minor.len() - 1]);
    assert(update::parts_filled(two));
}

/// Letters `v` in front of a tag do not count.
pub proof fn tags_may_open_with_v(tag: Seq<char>)
    ensures
        update::without_v(seq!['v'] + tag) == update::without_v(tag),
        tag.len() == 0 || tag[0] != 'v' ==> update::without_v(tag) == tag,
{
    let longer = seq!['v'] + tag;
    assert(longer[0] == 'v');
    assert(longer.skip(1) =~= tag);
}

} // verus!
