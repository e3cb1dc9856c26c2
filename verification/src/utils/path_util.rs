//! Safe and unused paths: [`PathUtil`] cleans the final segment of a path and
//! numbers it until the path is free. Only the final segment is ever
//! rewritten; what stands before it is kept.

use crate::error::PathError;
use crate::utils::file_name::{
    has_invalid_char, is_invalid_char, is_whitespace, lemma_numbered_chars, lemma_sanitized_clean,
    lemma_sanitized_refuses, numbered, numbered_name, sanitize, sanitized,
};
use std::path::PathBuf;
use vstd::prelude::*;

verus! {

/// `std::path::PathBuf`, an owned path.
#[verifier::external_type_specification]
#[verifier::external_body]
pub struct ExPathBuf(PathBuf);

/// The components of a path in their order, each as text: what
/// `Path::components` walks over.
pub uninterp spec fn path_segments(path: PathBuf) -> Seq<Seq<char>>;

/// The final segment of a path as text, for a path that has one: what
/// `Path::file_name` returns. A path that is empty, is a root or ends in `..`
/// has none.
pub uninterp spec fn path_file_name(path: PathBuf) -> Option<Seq<char>>;

/// The path that `Path::with_file_name` makes of `path` and `name`: `path`
/// with its final segment replaced by `name`.
pub uninterp spec fn path_with_file_name(path: PathBuf, name: Seq<char>) -> PathBuf;

/// Whether `name` is `.` or `..`, which a path reads as a directory and not
/// as a name.
pub open spec fn is_dot_name(name: Seq<char>) -> bool {
    name == seq!['.'] || name == seq!['.', '.']
}

/// Whether `name` is read as one plain segment on every platform: it is not
/// empty, is neither `.` nor `..`, and holds none of `/`, `\` and `:`.
pub open spec fn is_plain_name(name: Seq<char>) -> bool {
    &&& name.len() > 0
    &&& !is_dot_name(name)
    &&& forall|i: int|
        0 <= i < name.len() ==> #[trigger] name[i] != '/' && name[i] != '\\' && name[i] != ':'
}

/// Whether `after` is `before` with its final segment replaced by `name`:
/// the segments before the last are kept, and `name` is the last.
pub open spec fn replaces_file_name(before: PathBuf, after: PathBuf, name: Seq<char>) -> bool {
    &&& path_file_name(after) == Some(name)
    &&& path_segments(after) == path_segments(before).drop_last().push(name)
}

/// `Path::file_name`, as text (`to_string_lossy`). The final segment is the
/// last of the path's components.
#[verifier::external_body]
fn file_name(path: &PathBuf) -> (name: Option<String>)
    ensures
        match name {
            Some(text) => path_file_name(*path) == Some(text@),
            None => path_file_name(*path) is None,
        },
        name matches Some(text) ==> path_segments(*path).len() > 0 && path_segments(*path).last()
            == text@,
{
    match path.file_name() {
        Some(name) => Some(name.to_string_lossy().into_owned()),
        None => None,
    }
}

/// `Path::with_file_name`. On a path that has a final segment it drops that
/// segment and pushes `name`; a plain `name` is then the one new segment.
#[verifier::external_body]
fn with_file_name(path: &PathBuf, name: &str) -> (renamed: PathBuf)
    ensures
        renamed == path_with_file_name(*path, name@),
        path_file_name(*path) is Some && is_plain_name(name@) ==> replaces_file_name(
            *path,
            renamed,
            name@,
        ),
{
    path.with_file_name(name)
}

/// `Path::exists`: whether the path points at an entry of the file system
/// right now. The answer depends on what is on disk, so nothing is claimed
/// of it.
#[verifier::external_body]
fn path_exists(path: &PathBuf) -> bool {
    path.exists()
}

/// What cleaning makes of a path: a path without final segment, or whose
/// final segment holds no invalid character, stays as it is; else the final
/// segment is replaced by its cleaned form, if anything is left of it.
pub open spec fn cleaned_path(path: PathBuf) -> Result<PathBuf, PathError> {
    match path_file_name(path) {
        None => Ok(path),
        Some(name) => match sanitized(name) {
            Ok(clean) => if has_invalid_char(name) {
                Ok(path_with_file_name(path, clean))
            } else {
                Ok(path)
            },
            Err(error) => Err(error),
        },
    }
}

/// The name that cleaning gives the final segment of `path`, where it
/// rewrites the path.
pub open spec fn rewritten_name(path: PathBuf) -> Option<Seq<char>> {
    match cleaned_path(path) {
        Ok(_) => match path_file_name(path) {
            Some(name) => if has_invalid_char(name) {
                Some(sanitized(name).unwrap())
            } else {
                None
            },
            None => None,
        },
        Err(_) => None,
    }
}

/// The path with its final segment numbered by `n`.
pub open spec fn numbered_path(path: PathBuf, n: nat) -> PathBuf
    recommends
        path_file_name(path) is Some,
{
    path_with_file_name(path, numbered(path_file_name(path).unwrap(), n))
}

/// Whether `after` is `before` with its final segment numbered by `n`. With
/// a plain final segment the numbered name is the new final segment, and
/// what is before it is kept.
pub open spec fn is_numbered_of(before: PathBuf, after: PathBuf, n: nat) -> bool {
    &&& 1 <= n <= u64::MAX
    &&& path_file_name(before) is Some
    &&& after == numbered_path(before, n)
    &&& is_plain_name(path_file_name(before).unwrap()) ==> replaces_file_name(
        before,
        after,
        numbered(path_file_name(before).unwrap(), n),
    )
}

/// Whether a search that starts at `path` stops at the counter `n`: `path`
/// and every numbered path before `n` are reported as taken, and the one
/// numbered `n` as free. At the largest counter the search stops whatever
/// the report.
pub open spec fn stops_at<F: Fn(&PathBuf) -> bool>(path: PathBuf, taken: F, n: nat) -> bool {
    &&& call_ensures(taken, (&path,), true)
    &&& forall|k: nat| 1 <= k < n ==> call_ensures(taken, (&#[trigger] numbered_path(path, k),), true)
    &&& n < u64::MAX ==> call_ensures(taken, (&numbered_path(path, n),), false)
}

/// Whether `after` is what the search for an unused path makes of `before`
/// under the reports of `taken`.
pub open spec fn is_unique_of<F: Fn(&PathBuf) -> bool>(
    before: PathBuf,
    after: PathBuf,
    taken: F,
) -> bool {
    match path_file_name(before) {
        None => after == before,
        Some(_) => {
            ||| after == before && call_ensures(taken, (&before,), false)
            ||| exists|n: nat| #[trigger]
                is_numbered_of(before, after, n) && stops_at(before, taken, n)
        },
    }
}

/// Turns a path into one that `taken` reports as free. A path without final
/// segment, and one that is free, stay as they are. Else the final segment
/// is numbered from 1 upwards, and the first numbered path that is free
/// replaces `path`. The search ends at the counter `u64::MAX`, whose path is
/// taken whatever is reported of it. The path is rewritten in place and
/// handed back.
pub fn unique_by<F: Fn(&PathBuf) -> bool>(path: &mut PathBuf, taken: F) -> (result: &PathBuf)
    requires
        forall|probed: PathBuf| call_requires(taken, (&probed,)),
    ensures
        *result == *final(path),
        is_unique_of(*old(path), *final(path), taken),
{
    let name = match file_name(path) {
        Some(name) => name,
        None => {
            return path;
        },
    };
    if !taken(&*path) {
        return path;
    }
    let ghost before = *path;
    let mut counter: u64 = 1;
    loop
        invariant
            *path == before,
            before == *old(path),
            path_file_name(before) == Some(name@),
            1 <= counter,
            call_ensures(taken, (&before,), true),
            forall|k: nat|
                1 <= k < counter ==> call_ensures(taken, (&#[trigger] numbered_path(before, k),), true),
            forall|probed: PathBuf| call_requires(taken, (&probed,)),
        decreases u64::MAX - counter,
    {
        let candidate_name = numbered_name(name.as_str(), counter);
        let candidate = with_file_name(path, candidate_name.as_str());
        if counter == u64::MAX || !taken(&candidate) {
            proof {
                if is_plain_name(name@) {
                    lemma_numbered_is_plain(name@, counter as nat);
                }
                assert(is_numbered_of(before, candidate, counter as nat));
            }
            *path = candidate;
            return path;
        }
        counter = counter + 1;
    }
}

/// A plain name stays plain when it is numbered.
pub proof fn lemma_numbered_is_plain(name: Seq<char>, n: nat)
    requires
        is_plain_name(name),
    ensures
        is_plain_name(numbered(name, n)),
{
    lemma_numbered_chars(name, n);
    let text = numbered(name, n);
    assert forall|i: int| 0 <= i < text.len() implies #[trigger] text[i] != '/' && text[i] != '\\'
        && text[i] != ':' by {
        if name.contains(text[i]) {
            let j = choose|j: int| 0 <= j < name.len() && name[j] == text[i];
            assert(name[j] != '/' && name[j] != '\\' && name[j] != ':');
        }
    }
    // The space of the disambiguator tells the numbered name from `.` and
    // `..`.
    let at = choose|i: int| 0 <= i < text.len() && text[i] == ' ';
    assert(text[at] != '.');
}

/// A path that is reported as free is left as it is.
pub proof fn lemma_unique_keeps_free_path<F: Fn(&PathBuf) -> bool>(
    before: PathBuf,
    after: PathBuf,
    taken: F,
)
    requires
        is_unique_of(before, after, taken),
        forall|report: bool| call_ensures(taken, (&before,), report) ==> !report,
    ensures
        after == before,
{
}

/// A path that is reported as taken becomes the first of its numbered paths
/// that is reported as free: the one numbered 1 if that is free, else the
/// next, and so on.
pub proof fn lemma_unique_takes_first_free<F: Fn(&PathBuf) -> bool>(
    before: PathBuf,
    after: PathBuf,
    taken: F,
    n: nat,
)
    requires
        is_unique_of(before, after, taken),
        path_file_name(before) is Some,
        1 <= n <= u64::MAX,
        forall|report: bool| call_ensures(taken, (&before,), report) ==> report,
        forall|k: nat, report: bool|
            1 <= k < n && call_ensures(taken, (&#[trigger] numbered_path(before, k),), report)
                ==> report,
        forall|report: bool| call_ensures(taken, (&numbered_path(before, n),), report) ==> !report,
    ensures
        after == numbered_path(before, n),
{
    let m = choose|m: nat| #[trigger] is_numbered_of(before, after, m) && stops_at(before, taken, m);
    if m < n {
        // The search stopped before `n`, at a path that is reported as taken.
        assert(call_ensures(taken, (&numbered_path(before, m),), false));
    } else if n < m {
        // The search went past `n`, whose path is reported as free.
        assert(call_ensures(taken, (&numbered_path(before, n),), true));
    }
}

/// Operations that make a path safe to create: cleaning its final segment,
/// and moving it out of the way of what exists already.
pub trait PathUtil {
    /// Removes from the final segment the characters that no file name may
    /// hold, and trims what is left. Fails, and leaves the path as it is, if
    /// nothing would be left.
    fn clean(&mut self) -> Result<&Self, PathError>;

    /// Numbers the final segment until the path does not exist in the file
    /// system. A path that does not exist is left as it is.
    fn unique(&mut self) -> &Self;
}

impl PathUtil for PathBuf {
    fn clean(&mut self) -> (result: Result<&Self, PathError>)
        ensures
            result matches Ok(path) ==> *path == *final(self),
            match cleaned_path(*old(self)) {
                Ok(path) => result is Ok && *final(self) == path,
                Err(error) => result matches Err(e) && e == error && *final(self) == *old(self),
            },
            // A final segment without invalid characters: nothing changes.
            (path_file_name(*old(self)) matches Some(name) ==> !has_invalid_char(name)) ==> result
                is Ok && *final(self) == *old(self),
            // The one failure: an invalid character, and nothing else but
            // invalid characters and whitespace.
            result is Err <==> (path_file_name(*old(self)) matches Some(name) && has_invalid_char(
                name,
            ) && forall|i: int|
                0 <= i < name.len() ==> is_invalid_char(#[trigger] name[i]) || is_whitespace(
                    name[i],
                )),
            // A rewrite replaces the final segment and keeps what is before
            // it, unless the new name is `.` or `..`.
            rewritten_name(*old(self)) matches Some(clean) ==> (!is_dot_name(clean)
                ==> replaces_file_name(*old(self), *final(self), clean)),
            // Cleaning the cleaned path again changes nothing, with the same
            // exception.
            result is Ok && (rewritten_name(*old(self)) matches Some(clean) ==> !is_dot_name(clean))
                ==> cleaned_path(*final(self)) == Ok::<PathBuf, PathError>(*final(self)),
    {
        let name = match file_name(self) {
            Some(name) => name,
            None => {
                return Ok(self);
            },
        };
        proof {
            lemma_sanitized_clean(name@);
            lemma_sanitized_refuses(name@);
        }
        match sanitize(name.as_str()) {
            Err(error) => Err(error),
            Ok(clean) => {
                if clean == name {
                    return Ok(self);
                }
                let renamed = with_file_name(self, clean.as_str());
                *self = renamed;
                Ok(self)
            },
        }
    }

    fn unique(&mut self) -> (result: &Self)
        ensures
            *result == *final(self),
            match path_file_name(*old(self)) {
                None => *final(self) == *old(self),
                Some(_) => *final(self) == *old(self) || exists|n: nat| #[trigger]
                    is_numbered_of(*old(self), *final(self), n),
            },
    {
        unique_by(self, path_exists)
    }
}

} // verus!
