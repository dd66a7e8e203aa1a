//! File names inside paths.
//!
//! A path is text: components between `/` or `\`, with an optional prefix in
//! front. A prefix is a drive letter and a colon, a server and its share, or a
//! device. Behind a verbatim prefix, one that starts with `\\?\`, only `\`
//! separates and `.` is a component like any other.

use vstd::prelude::*;
use vstd::slice::slice_subrange;

use crate::text::{chars_of, is_text};

verus! {

pub open spec fn is_separator(c: char) -> bool {
    c == '/' || c == '\\'
}

/// What separates components, behind a verbatim prefix or elsewhere.
pub open spec fn is_break(c: char, verbatim: bool) -> bool {
    c == '\\' || (c == '/' && !verbatim)
}

pub open spec fn is_letter(c: char) -> bool {
    'a' <= c <= 'z' || 'A' <= c <= 'Z'
}

/// A drive letter and a colon.
pub open spec fn has_drive(path: Seq<char>, start: int) -> bool {
    path.len() >= start + 2 && is_letter(path[start]) && path[start + 1] == ':'
}

/// The path opens with `\\?\`, in exactly this form.
pub open spec fn is_verbatim(path: Seq<char>) -> bool {
    path.len() >= 4 && path[0] == '\\' && path[1] == '\\' && path[2] == '?' && path[3] == '\\'
}

/// Where the component that starts at a position ends.
pub open spec fn component_end(path: Seq<char>, start: int, verbatim: bool) -> int
    decreases path.len() - start,
{
    if start >= path.len() || is_break(path[start], verbatim) {
        start
    } else {
        component_end(path, start + 1, verbatim)
    }
}

/// Whether a server and a share, both named, stand at a position.
pub open spec fn has_share(path: Seq<char>, start: int, verbatim: bool) -> bool {
    let server = component_end(path, start, verbatim);
    &&& start < server < path.len()
    &&& server + 1 < component_end(path, server + 1, verbatim)
}

/// Where a share behind a server ends; the server itself where no share is named.
pub open spec fn share_end(path: Seq<char>, start: int) -> int {
    let server = component_end(path, start, true);
    if server < path.len() && server + 1 < component_end(path, server + 1, true) {
        component_end(path, server + 1, true)
    } else {
        server
    }
}

/// How long the prefix of a path is.
pub open spec fn prefix_length(path: Seq<char>) -> int {
    if is_verbatim(path) {
        if path.len() >= 8 && path[4] == 'U' && path[5] == 'N' && path[6] == 'C' && is_separator(
            path[7],
        ) {
            share_end(path, 8)
        } else if has_drive(path, 4) && (path.len() == 6 || is_separator(path[6])) {
            6
        } else {
            component_end(path, 4, true)
        }
    } else if path.len() >= 2 && is_separator(path[0]) && is_separator(path[1]) {
        if path.len() >= 4 && path[2] == '.' && is_separator(path[3]) {
            component_end(path, 4, false)
        } else if has_share(path, 2, false) {
            component_end(path, component_end(path, 2, false) + 1, false)
        } else {
            0
        }
    } else if has_drive(path, 0) {
        2
    } else {
        0
    }
}

/// What stands behind the prefix. The separator at the root belongs to no
/// component, whichever it is.
pub open spec fn body_of(path: Seq<char>) -> Seq<char> {
    let body = path.skip(prefix_length(path));
    if body.len() > 0 && is_separator(body[0]) {
        body.skip(1)
    } else {
        body
    }
}

/// Where the last component starts: behind the last separator.
pub open spec fn component_start(path: Seq<char>, verbatim: bool) -> int
    decreases path.len(),
{
    if path.len() == 0 || is_break(path.last(), verbatim) {
        path.len() as int
    } else {
        component_start(path.drop_last(), verbatim)
    }
}

/// The last component that names something. Separators at the end do not count,
/// nor do `.` components behind another one, unless the path is verbatim. `.`
/// alone and `..` name nothing.
pub open spec fn last_name(path: Seq<char>, verbatim: bool) -> Option<Seq<char>>
    decreases path.len(),
{
    let start = component_start(path, verbatim);
    if path.len() == 0 {
        None
    } else if is_break(path.last(), verbatim) {
        last_name(path.drop_last(), verbatim)
    } else if path.skip(start) == seq!['.'] {
        if 0 < start < path.len() && !verbatim {
            last_name(path.take(start), verbatim)
        } else {
            None
        }
    } else if path.skip(start) == seq!['.', '.'] {
        None
    } else {
        Some(path.skip(start))
    }
}

/// The name of the file that a path leads to.
pub open spec fn file_name_of(path: Seq<char>) -> Option<Seq<char>> {
    last_name(body_of(path), is_verbatim(path))
}

/// Where the last dot of a name stands; -1 without one.
pub open spec fn last_dot(name: Seq<char>) -> int
    decreases name.len(),
{
    if name.len() == 0 {
        -1
    } else if name.last() == '.' {
        name.len() - 1
    } else {
        last_dot(name.drop_last())
    }
}

/// What stands behind the last dot of a file name, unless the name starts with it.
pub open spec fn extension_of(name: Seq<char>) -> Option<Seq<char>> {
    if last_dot(name) > 0 {
        Some(name.skip(last_dot(name) + 1))
    } else {
        None
    }
}

/// A file name without its extension.
pub open spec fn stem_of(name: Seq<char>) -> Seq<char> {
    if last_dot(name) > 0 {
        name.take(last_dot(name))
    } else {
        name
    }
}

fn separates(c: char) -> (result: bool)
    ensures
        result == is_separator(c),
{
    c == '/' || c == '\\'
}

fn breaks(c: char, verbatim: bool) -> (result: bool)
    ensures
        result == is_break(c, verbatim),
{
    c == '\\' || (c == '/' && !verbatim)
}

fn drive_at(path: &[char], start: usize) -> (result: bool)
    requires
        start <= path@.len(),
    ensures
        result == has_drive(path@, start as int),
{
    path.len() - start >= 2 && path[start + 1] == ':' && (('a' <= path[start] && path[start] <= 'z')
        || ('A' <= path[start] && path[start] <= 'Z'))
}

fn find_end(path: &[char], start: usize, verbatim: bool) -> (end: usize)
    requires
        start <= path@.len(),
    ensures
        end == component_end(path@, start as int, verbatim),
        start <= end <= path@.len(),
{
    let mut end: usize = start;
    while end < path.len() && !breaks(path[end], verbatim)
        invariant
            start <= end <= path@.len(),
            component_end(path@, end as int, verbatim) == component_end(
                path@,
                start as int,
                verbatim,
            ),
        decreases path.len() - end,
    {
        end += 1;
    }
    end
}

fn find_share_end(path: &[char], start: usize) -> (end: usize)
    requires
        start <= path@.len(),
    ensures
        end == share_end(path@, start as int),
        start <= end <= path@.len(),
{
    let server = find_end(path, start, true);
    if server < path.len() {
        let share = find_end(path, server + 1, true);
        if server + 1 < share {
            return share;
        }
    }
    server
}

fn opens_verbatim(path: &[char]) -> (result: bool)
    ensures
        result == is_verbatim(path@),
{
    path.len() >= 4 && path[0] == '\\' && path[1] == '\\' && path[2] == '?' && path[3] == '\\'
}

fn find_prefix(path: &[char]) -> (length: usize)
    ensures
        length == prefix_length(path@),
        length <= path@.len(),
{
    if opens_verbatim(path) {
        if path.len() >= 8 && path[4] == 'U' && path[5] == 'N' && path[6] == 'C' && separates(
            path[7],
        ) {
            find_share_end(path, 8)
        } else if drive_at(path, 4) && (path.len() == 6 || separates(path[6])) {
            6
        } else {
            find_end(path, 4, true)
        }
    } else if path.len() >= 2 && separates(path[0]) && separates(path[1]) {
        if path.len() >= 4 && path[2] == '.' && separates(path[3]) {
            return find_end(path, 4, false);
        }
        let server = find_end(path, 2, false);
        if 2 < server && server < path.len() {
            let share = find_end(path, server + 1, false);
            if server + 1 < share {
                return share;
            }
        }
        0
    } else if drive_at(path, 0) {
        2
    } else {
        0
    }
}

fn find_component(path: &[char], verbatim: bool) -> (start: usize)
    ensures
        start == component_start(path@, verbatim),
        start <= path@.len(),
{
    let mut start: usize = path.len();
    assert(path@.take(start as int) =~= path@);
    while start > 0 && !breaks(path[start - 1], verbatim)
        invariant
            start <= path.len(),
            component_start(path@.take(start as int), verbatim) == component_start(path@, verbatim),
        decreases start,
    {
        assert(path@.take(start as int).drop_last() =~= path@.take(start - 1));
        start -= 1;
    }
    assert(path@.take(start as int).len() == start);
    start
}

fn find_name(path: &[char], verbatim: bool) -> (name: Option<Vec<char>>)
    ensures
        match name {
            Some(name) => last_name(path@, verbatim) == Some(name@),
            None => last_name(path@, verbatim) is None,
        },
    decreases path@.len(),
{
    if path.len() == 0 {
        return None;
    }
    if breaks(path[path.len() - 1], verbatim) {
        let shorter = slice_subrange(path, 0, path.len() - 1);
        assert(shorter@ =~= path@.drop_last());
        return find_name(shorter, verbatim);
    }
    let start = find_component(path, verbatim);
    let component = slice_subrange(path, start, path.len());
    assert(component@ =~= path@.skip(start as int));
    proof {
        reveal_strlit(".");
        reveal_strlit("..");
        assert("."@ =~= seq!['.']);
        assert(".."@ =~= seq!['.', '.']);
    }
    if is_text(component, ".") {
        if 0 < start && start < path.len() && !verbatim {
            let front = slice_subrange(path, 0, start);
            assert(front@ =~= path@.take(start as int));
            return find_name(front, verbatim);
        }
        return None;
    }
    if is_text(component, "..") {
        return None;
    }
    Some(vstd::slice::slice_to_vec(component))
}

/// The name of the file that a path leads to.
pub fn file_name(path: &str) -> (name: Option<Vec<char>>)
    ensures
        match name {
            Some(name) => file_name_of(path@) == Some(name@),
            None => file_name_of(path@) is None,
        },
{
    let chars = chars_of(path);
    let whole = chars.as_slice();
    let prefix = find_prefix(whole);
    let root = prefix < whole.len() && separates(whole[prefix]);
    let start: usize = if root {
        prefix + 1
    } else {
        prefix
    };
    let body = slice_subrange(whole, start, whole.len());
    assert(body@ =~= body_of(path@));
    find_name(body, opens_verbatim(whole))
}

fn find_dot(name: &[char]) -> (place: Option<usize>)
    ensures
        match place {
            Some(place) => place == last_dot(name@) && place < name@.len(),
            None => last_dot(name@) == -1,
        },
{
    let mut end: usize = name.len();
    assert(name@.take(end as int) =~= name@);
    while end > 0
        invariant
            end <= name.len(),
            last_dot(name@.take(end as int)) == last_dot(name@),
        decreases end,
    {
        assert(name@.take(end as int).drop_last() =~= name@.take(end - 1));
        if name[end - 1] == '.' {
            return Some(end - 1);
        }
        end -= 1;
    }
    None
}

/// What stands behind the last dot of a file name, unless the name starts with it.
pub fn extension(name: &[char]) -> (extension: Option<Vec<char>>)
    ensures
        match extension {
            Some(extension) => extension_of(name@) == Some(extension@),
            None => extension_of(name@) is None,
        },
{
    match find_dot(name) {
        Some(place) if place > 0 => {
            assert(place < name.len());
            let tail = slice_subrange(name, place + 1, name.len());
            assert(tail@ =~= name@.skip(place + 1));
            Some(vstd::slice::slice_to_vec(tail))
        },
        _ => None,
    }
}

/// A file name without its extension.
pub fn stem(name: &[char]) -> (stem: Vec<char>)
    ensures
        stem@ == stem_of(name@),
{
    match find_dot(name) {
        Some(place) if place > 0 => {
            let front = slice_subrange(name, 0, place);
            assert(front@ =~= name@.take(place as int));
            vstd::slice::slice_to_vec(front)
        },
        _ => vstd::slice::slice_to_vec(name),
    }
}

} // verus!
