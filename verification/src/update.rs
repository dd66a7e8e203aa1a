//! Which release of the editor to offer.

use vstd::prelude::*;
use vstd::slice::slice_subrange;
use vstd::string::StringExecFns;

use crate::text;
use crate::text::{chars_of, push_decimal, same_ignoring_case, string_of, trim_chars};

verus! {

/// The file of a release that holds the editor.
pub const RELEASE_ASSET_NAME: &'static str = "GeodataEditor.exe";

/// A version: three numbers, a pre-release and build metadata.
#[derive(Clone, Debug, PartialEq, Eq)]
pub struct ReleaseVersion {
    pub major: u64,
    pub minor: u64,
    pub patch: u64,
    pub pre: String,
    pub build: String,
}

/// What a [`ReleaseVersion`] says.
#[verifier::ext_equal]
pub struct VersionModel {
    pub major: u64,
    pub minor: u64,
    pub patch: u64,
    pub pre: Seq<char>,
    pub build: Seq<char>,
}

impl View for ReleaseVersion {
    type V = VersionModel;

    open spec fn view(&self) -> VersionModel {
        VersionModel {
            major: self.major,
            minor: self.minor,
            patch: self.patch,
            pre: self.pre@,
            build: self.build@,
        }
    }
}

/// What `semver::Version::parse` reads in a text: the numbers, the pre-release
/// and the build metadata of a version.
pub uninterp spec fn version_in(text: Seq<char>) -> Option<(u64, u64, u64, Seq<char>, Seq<char>)>;

/// Whether `semver::Version` orders one version above another that has the same
/// numbers, by their pre-releases and build metadata.
pub uninterp spec fn suffix_exceeds(
    pre: Seq<char>,
    build: Seq<char>,
    other_pre: Seq<char>,
    other_build: Seq<char>,
) -> bool;

/// What `sha2::Sha256` computes of bytes.
pub uninterp spec fn sha256(bytes: Seq<u8>) -> Seq<u8>;

/// The version that a text writes.
pub open spec fn parsed(text: Seq<char>) -> Option<VersionModel> {
    match version_in(text) {
        Some((major, minor, patch, pre, build)) => Some(
            VersionModel { major, minor, patch, pre, build },
        ),
        None => None,
    }
}

pub open spec fn version_of(version: Option<ReleaseVersion>) -> Option<VersionModel> {
    match version {
        Some(version) => Some(version@),
        None => None,
    }
}

/// Calls `semver::Version::parse`, and takes the parts of what it read. What
/// it reads depends on the text alone.
#[verifier::external_body]
fn parse_version(text: &str) -> (version: Option<ReleaseVersion>)
    ensures
        match (version, version_in(text@)) {
            (Some(version), Some((major, minor, patch, pre, build))) => version@ == (VersionModel {
                major,
                minor,
                patch,
                pre,
                build,
            }),
            (None, None) => true,
            _ => false,
        },
{
    let version = semver::Version::parse(text).ok()?;
    Some(
        ReleaseVersion {
            major: version.major,
            minor: version.minor,
            patch: version.patch,
            pre: version.pre.as_str().to_owned(),
            build: version.build.as_str().to_owned(),
        },
    )
}

/// Whether a version is above another: by the first of its numbers that
/// differs, else by what follows them.
pub open spec fn newer(left: VersionModel, right: VersionModel) -> bool {
    if left == right {
        false
    } else if left.major != right.major {
        left.major > right.major
    } else if left.minor != right.minor {
        left.minor > right.minor
    } else if left.patch != right.patch {
        left.patch > right.patch
    } else {
        suffix_exceeds(left.pre, left.build, right.pre, right.build)
    }
}

/// Compares two versions as `semver::Version` does: number by number, and then
/// by pre-release and build metadata. A version is not above itself. A
/// pre-release or build metadata that `semver` would not write counts as none.
#[verifier::external_body]
fn exceeds(left: &ReleaseVersion, right: &ReleaseVersion) -> (result: bool)
    ensures
        result == if left@ == right@ {
            false
        } else if left.major != right.major {
            left.major > right.major
        } else if left.minor != right.minor {
            left.minor > right.minor
        } else if left.patch != right.patch {
            left.patch > right.patch
        } else {
            suffix_exceeds(left.pre@, left.build@, right.pre@, right.build@)
        },
{
    let left = semver::Version {
        pre: semver::Prerelease::new(&left.pre).unwrap_or_default(),
        build: semver::BuildMetadata::new(&left.build).unwrap_or_default(),
        ..semver::Version::new(left.major, left.minor, left.patch)
    };
    let right = semver::Version {
        pre: semver::Prerelease::new(&right.pre).unwrap_or_default(),
        build: semver::BuildMetadata::new(&right.build).unwrap_or_default(),
        ..semver::Version::new(right.major, right.minor, right.patch)
    };
    left > right
}

/// Computes the digest of bytes with `sha2::Sha256`. It depends on the bytes
/// alone.
#[verifier::external_body]
fn digest_of(bytes: &[u8]) -> (digest: [u8; 32])
    ensures
        digest@ == sha256(bytes@),
{
    <sha2::Sha256 as sha2::Digest>::digest(bytes).into()
}

impl ReleaseVersion {
    /// The version that a text writes in full.
    pub fn parse(text: &str) -> (version: Option<ReleaseVersion>)
        ensures
            version_of(version) == parsed(text@),
    {
        parse_version(text)
    }

    /// The version as it is written.
    pub fn text(&self) -> (text: String)
        ensures
            text@ == text::decimal(self@.major as nat) + "."@ + text::decimal(self@.minor as nat)
                + "."@ + text::decimal(self@.patch as nat) + (if self@.pre.len() == 0 {
                Seq::empty()
            } else {
                "-"@ + self@.pre
            }) + if self@.build.len() == 0 {
                Seq::empty()
            } else {
                "+"@ + self@.build
            },
    {
        let mut text = String::new();
        push_decimal(&mut text, self.major);
        text.append(".");
        push_decimal(&mut text, self.minor);
        text.append(".");
        push_decimal(&mut text, self.patch);
        let ghost numbers = text@;
        assert(numbers =~= text::decimal(self@.major as nat) + "."@ + text::decimal(
            self@.minor as nat,
        ) + "."@ + text::decimal(self@.patch as nat));
        if !self.pre.as_str().is_empty() {
            text.append("-");
            text.append(self.pre.as_str());
        }
        let ghost pre = text@;
        assert(pre =~= numbers + if self@.pre.len() == 0 {
            Seq::empty()
        } else {
            "-"@ + self@.pre
        });
        if !self.build.as_str().is_empty() {
            text.append("+");
            text.append(self.build.as_str());
        }
        assert(text@ =~= pre + if self@.build.len() == 0 {
            Seq::empty()
        } else {
            "+"@ + self@.build
        });
        text
    }
}

/// A text without the letters `v` that open it.
pub open spec fn without_v(tag: Seq<char>) -> Seq<char>
    decreases tag.len(),
{
    if tag.len() > 0 && tag[0] == 'v' {
        without_v(tag.skip(1))
    } else {
        tag
    }
}

/// Where a pre-release or build metadata starts.
pub open spec fn suffix_start(tag: Seq<char>) -> int
    decreases tag.len(),
{
    if tag.len() == 0 || tag[0] == '-' || tag[0] == '+' {
        0
    } else {
        1 + suffix_start(tag.skip(1))
    }
}

pub open spec fn dots(core: Seq<char>) -> nat
    decreases core.len(),
{
    if core.len() == 0 {
        0
    } else {
        dots(core.drop_last()) + if core.last() == '.' {
            1nat
        } else {
            0
        }
    }
}

/// Whether something stands before, between and behind the dots.
pub open spec fn parts_filled(core: Seq<char>) -> bool {
    &&& core.len() > 0
    &&& core[0] != '.'
    &&& core.last() != '.'
    &&& forall|i: int| 0 < i < core.len() ==> !(core[i - 1] == '.' && #[trigger] core[i] == '.')
}

/// A tag with the numbers that it leaves out as zeros. A tag with three numbers
/// or more, or with an empty one, has no such form.
pub open spec fn completed(tag: Seq<char>) -> Option<Seq<char>> {
    let core = tag.take(suffix_start(tag));
    let suffix = tag.skip(suffix_start(tag));
    if dots(core) >= 2 || !parts_filled(core) {
        None
    } else if dots(core) == 1 {
        Some(core + ".0"@ + suffix)
    } else {
        Some(core + ".0.0"@ + suffix)
    }
}

/// The version of a release's tag. Tags may open with a `v` and leave out
/// numbers at the end.
pub open spec fn tag_version(tag: Seq<char>) -> Option<VersionModel> {
    let plain = without_v(text::trimmed(tag));
    match parsed(plain) {
        Some(version) => Some(version),
        None => match completed(plain) {
            Some(text) => parsed(text),
            None => None,
        },
    }
}

fn strip_v(chars: &[char]) -> (result: &[char])
    ensures
        result@ == without_v(chars@),
{
    let mut start: usize = 0;
    assert(chars@.skip(0) =~= chars@);
    while start < chars.len() && chars[start] == 'v'
        invariant
            start <= chars@.len(),
            without_v(chars@.skip(start as int)) == without_v(chars@),
        decreases chars.len() - start,
    {
        assert(chars@.skip(start as int).skip(1) =~= chars@.skip(start + 1));
        start += 1;
    }
    let result = slice_subrange(chars, start, chars.len());
    assert(result@ =~= chars@.skip(start as int));
    result
}

fn find_suffix(chars: &[char]) -> (start: usize)
    ensures
        start == suffix_start(chars@),
        start <= chars@.len(),
{
    let mut start: usize = 0;
    assert(chars@.skip(0) =~= chars@);
    while start < chars.len() && chars[start] != '-' && chars[start] != '+'
        invariant
            start <= chars@.len(),
            start + suffix_start(chars@.skip(start as int)) == suffix_start(chars@),
        decreases chars.len() - start,
    {
        assert(chars@.skip(start as int).skip(1) =~= chars@.skip(start + 1));
        start += 1;
    }
    start
}

fn count_dots(core: &[char]) -> (count: usize)
    ensures
        count == dots(core@),
{
    let mut count: usize = 0;
    let mut i: usize = 0;
    while i < core.len()
        invariant
            i <= core@.len(),
            count <= i,
            count == dots(core@.take(i as int)),
        decreases core.len() - i,
    {
        assert(core@.take(i + 1).drop_last() =~= core@.take(i as int));
        if core[i] == '.' {
            count += 1;
        }
        i += 1;
    }
    assert(core@.take(i as int) =~= core@);
    count
}

fn is_filled(core: &[char]) -> (filled: bool)
    ensures
        filled == parts_filled(core@),
{
    if core.len() == 0 || core[0] == '.' || core[core.len() - 1] == '.' {
        return false;
    }
    let mut i: usize = 1;
    while i < core.len()
        invariant
            1 <= i <= core@.len(),
            core@[0] != '.',
            core@.last() != '.',
            forall|j: int| 0 < j < i ==> !(core@[j - 1] == '.' && #[trigger] core@[j] == '.'),
        decreases core.len() - i,
    {
        if core[i - 1] == '.' && core[i] == '.' {
            return false;
        }
        i += 1;
    }
    true
}

fn complete(tag: &[char]) -> (result: Option<String>)
    ensures
        match result {
            Some(text) => completed(tag@) == Some(text@),
            None => completed(tag@) is None,
        },
{
    let start: usize = find_suffix(tag);
    let core = slice_subrange(tag, 0, start);
    let suffix = slice_subrange(tag, start, tag.len());
    assert(core@ =~= tag@.take(start as int));
    assert(suffix@ =~= tag@.skip(start as int));
    let count: usize = count_dots(core);
    if count >= 2 || !is_filled(core) {
        return None;
    }
    let mut text = string_of(core);
    if count == 1 {
        text.append(".0");
    } else {
        text.append(".0.0");
    }
    text.append(string_of(suffix).as_str());
    Some(text)
}

/// The version of a release's tag.
pub fn parse_release_version(tag: &str) -> (version: Option<ReleaseVersion>)
    ensures
        version_of(version) == tag_version(tag@),
{
    let chars = chars_of(tag);
    let plain = strip_v(trim_chars(chars.as_slice()));
    match parse_version(string_of(plain).as_str()) {
        Some(version) => Some(version),
        None => match complete(plain) {
            Some(text) => parse_version(text.as_str()),
            None => None,
        },
    }
}

/// The value of a hexadecimal digit.
pub open spec fn hex_value(c: char) -> Option<u8> {
    if '0' <= c <= '9' {
        Some((c as int - 48) as u8)
    } else if 'a' <= c <= 'f' {
        Some((c as int - 87) as u8)
    } else if 'A' <= c <= 'F' {
        Some((c as int - 55) as u8)
    } else {
        None
    }
}

/// The digest that a text gives: 64 hexadecimal digits behind `sha256:`.
pub open spec fn digest_in(value: Seq<char>) -> Option<Seq<u8>> {
    let digits = value.skip(7);
    if value.len() == 71 && value.take(7) == "sha256:"@ && forall|i: int|
        0 <= i < 64 ==> hex_value(#[trigger] digits[i]) is Some {
        Some(
            Seq::new(
                32,
                |i: int| (16 * hex_value(digits[2 * i])->0 + hex_value(digits[2 * i + 1])->0) as u8,
            ),
        )
    } else {
        None
    }
}

/// The value of a hexadecimal digit.
pub fn hex_digit(value: char) -> (digit: Option<u8>)
    ensures
        digit == hex_value(value),
        digit is Some ==> digit->0 < 16,
{
    if '0' <= value && value <= '9' {
        Some((value as u32 - 48) as u8)
    } else if 'a' <= value && value <= 'f' {
        Some((value as u32 - 87) as u8)
    } else if 'A' <= value && value <= 'F' {
        Some((value as u32 - 55) as u8)
    } else {
        None
    }
}

/// Reads the digest of a file.
pub fn parse_sha256(value: &str) -> (digest: Option<[u8; 32]>)
    ensures
        match digest {
            Some(digest) => digest_in(value@) == Some(digest@),
            None => digest_in(value@) is None,
        },
{
    let chars = chars_of(value);
    if chars.len() != 71 {
        return None;
    }
    let front = slice_subrange(chars.as_slice(), 0, 7);
    assert(front@ =~= value@.take(7));
    if !text::is_text(front, "sha256:") {
        return None;
    }
    let ghost digits = value@.skip(7);
    let mut digest: [u8; 32] = [0; 32];
    let mut i: usize = 0;
    while i < 32
        invariant
            i <= 32,
            chars@ == value@,
            value@.len() == 71,
            value@.take(7) == "sha256:"@,
            digits == value@.skip(7),
            forall|j: int| 0 <= j < 2 * i ==> hex_value(#[trigger] digits[j]) is Some,
            forall|j: int|
                0 <= j < i ==> #[trigger] digest@[j] == 16 * hex_value(digits[2 * j])->0
                    + hex_value(digits[2 * j + 1])->0,
        decreases 32 - i,
    {
        let high = hex_digit(chars[7 + 2 * i]);
        let low = hex_digit(chars[8 + 2 * i]);
        assert(digits[2 * i as int] == value@[7 + 2 * i]);
        assert(digits[2 * i + 1] == value@[8 + 2 * i]);
        match (high, low) {
            (Some(high), Some(low)) => {
                digest[i] = 16 * high + low;
            },
            _ => {
                return None;
            },
        }
        i += 1;
    }
    proof {
        assert(digest@ =~= digest_in(value@)->0);
    }
    Some(digest)
}

/// A file of a release.
#[derive(Debug)]
pub struct ReleaseAsset {
    pub name: String,
    pub browser_download_url: String,
    pub size: u64,
    pub digest: Option<String>,
}

#[derive(Debug)]
pub struct Release {
    pub tag_name: String,
    pub assets: Vec<ReleaseAsset>,
}

/// A release to offer.
#[derive(Debug)]
pub struct AvailableUpdate {
    pub version: ReleaseVersion,
    pub download_url: String,
    pub size: u64,
    pub sha256: [u8; 32],
}

/// What an [`AvailableUpdate`] says.
#[verifier::ext_equal]
pub struct UpdateModel {
    pub version: VersionModel,
    pub download_url: Seq<char>,
    pub size: u64,
    pub sha256: Seq<u8>,
}

impl View for AvailableUpdate {
    type V = UpdateModel;

    open spec fn view(&self) -> UpdateModel {
        UpdateModel {
            version: self.version@,
            download_url: self.download_url@,
            size: self.size,
            sha256: self.sha256@,
        }
    }
}

pub open spec fn is_editor(asset: ReleaseAsset) -> bool {
    text::ascii_lower(asset.name@) == text::ascii_lower(RELEASE_ASSET_NAME@)
}

/// The first file from one on that holds the editor.
pub open spec fn editor_from(assets: Seq<ReleaseAsset>, index: nat) -> Option<ReleaseAsset>
    decreases assets.len() - index,
{
    if index >= assets.len() {
        None
    } else if is_editor(assets[index as int]) {
        Some(assets[index as int])
    } else {
        editor_from(assets, index + 1)
    }
}

/// What of a release is offered, if it is newer: its editor, where that is not
/// empty and comes with a digest.
pub open spec fn offered(release: Release, version: VersionModel) -> Option<UpdateModel> {
    match editor_from(release.assets@, 0) {
        None => None,
        Some(asset) => match asset.digest {
            None => None,
            Some(digest) => match digest_in(digest@) {
                None => None,
                Some(sha256) => if asset.size > 0 {
                    Some(
                        UpdateModel {
                            version,
                            download_url: asset.browser_download_url@,
                            size: asset.size,
                            sha256,
                        },
                    )
                } else {
                    None
                },
            },
        },
    }
}

/// The update that a release is for a version.
pub open spec fn selected(release: Release, current: VersionModel) -> Option<UpdateModel> {
    match tag_version(release.tag_name@) {
        Some(version) => if newer(version, current) {
            offered(release, version)
        } else {
            None
        },
        None => None,
    }
}

pub open spec fn update_of(update: Option<AvailableUpdate>) -> Option<UpdateModel> {
    match update {
        Some(update) => Some(update@),
        None => None,
    }
}

/// What of a release with a version is offered, if it is newer.
pub fn offer(release: &Release, version: ReleaseVersion) -> (update: Option<AvailableUpdate>)
    ensures
        update_of(update) == offered(*release, version@),
{
    let mut index: usize = 0;
    while index < release.assets.len()
        invariant
            index <= release.assets@.len(),
            editor_from(release.assets@, 0) == editor_from(release.assets@, index as nat),
        decreases release.assets.len() - index,
    {
        let asset = &release.assets[index];
        let name = chars_of(asset.name.as_str());
        if same_ignoring_case(name.as_slice(), RELEASE_ASSET_NAME) {
            let digest = match &asset.digest {
                Some(digest) => parse_sha256(digest.as_str()),
                None => None,
            };
            return match digest {
                Some(sha256) => if asset.size > 0 {
                    Some(
                        AvailableUpdate {
                            version,
                            download_url: asset.browser_download_url.clone(),
                            size: asset.size,
                            sha256,
                        },
                    )
                } else {
                    None
                },
                None => None,
            };
        }
        index += 1;
    }
    None
}

/// The update that a release is for the version that runs.
pub fn select_update(release: &Release, current: &ReleaseVersion) -> (update: Option<
    AvailableUpdate,
>)
    ensures
        update_of(update) == selected(*release, current@),
{
    match parse_release_version(release.tag_name.as_str()) {
        Some(version) => if exceeds(&version, current) {
            offer(release, version)
        } else {
            None
        },
        None => None,
    }
}

/// Whether a download of a size and with a digest is the update.
pub fn is_update(size: u64, digest: &[u8; 32], update: &AvailableUpdate) -> (same: bool)
    ensures
        same == (size == update@.size && digest@ == update@.sha256),
{
    if size != update.size {
        return false;
    }
    let mut i: usize = 0;
    while i < 32
        invariant
            i <= 32,
            forall|j: int| 0 <= j < i ==> digest@[j] == update.sha256@[j],
        decreases 32 - i,
    {
        if digest[i] != update.sha256[i] {
            return false;
        }
        i += 1;
    }
    assert(digest@ =~= update.sha256@);
    true
}

/// Whether downloaded bytes are the update.
pub fn check_download(bytes: &[u8], update: &AvailableUpdate) -> (same: bool)
    ensures
        same == (bytes@.len() == update@.size && sha256(bytes@) == update@.sha256),
{
    let digest = digest_of(bytes);
    is_update(bytes.len() as u64, &digest, update)
}

/// A release that was installed is not offered again.
pub proof fn installed_update_is_not_offered(release: Release, current: VersionModel)
    requires
        selected(release, current) is Some,
    ensures
        newer(selected(release, current)->0.version, current),
        selected(release, selected(release, current)->0.version) is None,
{
}

} // verus!
