//! Paths whose parts are separated by slashes.

use vstd::prelude::*;
use vstd::string::StringExecFns;

use crate::text::{contains_char, ends_with, finishes_with, optional_str, to_chars};

verus! {

/// Whether a path begins at the root.
pub open spec fn is_absolute(path: Seq<char>) -> bool {
    path.len() > 0 && path[0] == '/'
}

/// A path with another one appended to it: an absolute path replaces it, and a slash stands
/// between the two unless there is nothing before it or a slash already.
pub open spec fn joined_path(base: Seq<char>, path: Seq<char>) -> Seq<char> {
    if is_absolute(path) {
        path
    } else if base.len() == 0 || base.last() == '/' {
        base + path
    } else {
        base.push('/') + path
    }
}

/// A path with another one appended to it.
pub fn join_path(base: &str, path: &str) -> (joined: String)
    ensures
        joined@ == joined_path(base@, path@),
{
    let front = to_chars(base);
    let back = to_chars(path);
    if back.len() > 0 && back[0] == '/' {
        return path.to_owned();
    }
    let mut joined = base.to_owned();
    if front.len() > 0 && front[front.len() - 1] != '/' {
        joined.push('/');
    }
    joined.append(path);
    joined
}

/// A name with an extension, in a directory.
pub open spec fn file_in(directory: Seq<char>, name: Seq<char>, extension: Seq<char>) -> Seq<char> {
    joined_path(directory, name + extension)
}

/// A name with an extension, in a directory.
pub fn file_path(directory: &str, name: &str, extension: &str) -> (path: String)
    ensures
        path@ == file_in(directory@, name@, extension@),
{
    let mut file = name.to_owned();
    file.append(extension);
    join_path(directory, file.as_str())
}

/// Whether a file name has an extension: what follows its last point, where something stands
/// before that point.
pub open spec fn has_extension(name: Seq<char>, extension: Seq<char>) -> bool {
    !extension.contains('.') && finishes_with(name, seq!['.'] + extension) && name.len()
        > extension.len() + 1
}

/// Whether a file name has an extension.
pub fn is_extension(name: &str, extension: &str) -> (answer: bool)
    ensures
        answer == has_extension(name@, extension@),
{
    if contains_char(extension, '.') {
        return false;
    }
    let mut suffix = String::new();
    suffix.push('.');
    suffix.append(extension);
    assert(suffix@ =~= seq!['.'] + extension@);
    if !ends_with(name, suffix.as_str()) {
        return false;
    }
    let whole = to_chars(name);
    let tail = to_chars(suffix.as_str());
    whole.len() > tail.len()
}

/// The directory that the engine keeps its files in: the one that is set, or one in the home
/// directory, or one in the current directory.
pub open spec fn home_directory(set: Option<Seq<char>>, home: Option<Seq<char>>) -> Seq<char> {
    match set {
        Some(directory) => directory,
        None => match home {
            Some(h) => joined_path(h, ".clab"@),
            None => ".clab"@,
        },
    }
}

/// The directory that the engine keeps its files in.
pub fn clab_home(set: Option<&str>, home: Option<&str>) -> (directory: String)
    ensures
        directory@ == home_directory(optional_str(set), optional_str(home)),
{
    match set {
        Some(directory) => directory.to_owned(),
        None => match home {
            Some(h) => join_path(h, ".clab"),
            None => ".clab".to_owned(),
        },
    }
}

} // verus!
