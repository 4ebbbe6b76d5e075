//! File paths: their parts, and the operations on them that the library needs.

use std::path::{Path, PathBuf};
use vstd::prelude::*;

verus! {

/// A borrowed path.
#[verifier::external_type_specification]
#[verifier::external_body]
pub struct ExPath(Path);

/// An owned path.
#[verifier::external_type_specification]
#[verifier::external_body]
pub struct ExPathBuf(PathBuf);

/// The systems that the application is set up differently on.
#[derive(Debug, Clone, Copy, PartialEq, Eq)]
pub enum Platform {
    Windows,
    MacOs,
    Other,
}

/// A part of a path.
pub enum PartView {
    /// The drive or the share that a path on Windows begins with.
    Prefix(Seq<char>),
    /// The root directory.
    Root,
    /// The current directory.
    Current,
    /// The directory above.
    Above,
    /// A file or a directory by its name.
    Name(Seq<char>),
}

/// The parts of a path, each name as text with a replacement character for what is not Unicode.
pub uninterp spec fn path_parts(path: &Path) -> Seq<PartView>;

/// The parts of an owned path.
pub uninterp spec fn path_buf_parts(path: PathBuf) -> Seq<PartView>;

/// The text of a path, with a replacement character for what is not Unicode.
pub uninterp spec fn path_text(path: &Path) -> Seq<char>;

/// The text of an owned path.
pub uninterp spec fn path_buf_text(path: PathBuf) -> Seq<char>;

/// Whether the text is the name of one file or directory on every system.
pub open spec fn is_file_name(name: Seq<char>) -> bool {
    &&& name.len() > 0
    &&& name != "."@
    &&& name != ".."@
    &&& !name.contains('/')
    &&& !name.contains('\\')
    &&& !name.contains(':')
}

/// A text of three or more characters is a file name if it is free of separators.
pub proof fn lemma_is_file_name(name: Seq<char>)
    requires
        name.len() > 2,
        forall|i: int|
            0 <= i < name.len() ==> #[trigger] name[i] != '/' && name[i] != '\\' && name[i] != ':',
    ensures
        is_file_name(name),
{
    reveal_strlit(".");
    reveal_strlit("..");
}

/// The names as parts of a path.
pub open spec fn name_parts(names: Seq<Seq<char>>) -> Seq<PartView> {
    names.map_values(|name: Seq<char>| PartView::Name(name))
}

/// Whether `inner` is reached from `outer` by the names.
pub open spec fn leads_to(outer: Seq<PartView>, names: Seq<Seq<char>>, inner: Seq<PartView>) -> bool {
    inner == outer + name_parts(names)
}

/// Whether the character separates the parts of a path on some system.
pub open spec fn is_separator(c: char) -> bool {
    c == '/' || c == '\\'
}

/// Whether a text begins with two separators. On Windows it may then stand for a share or a
/// device whose name is not complete, and would take in a name that is put behind it.
pub open spec fn begins_with_two_separators(path: Seq<char>) -> bool {
    path.len() >= 2 && is_separator(path[0]) && is_separator(path[1])
}

/// Whether the text and the parts are those of a share with its server, with its root directory.
pub open spec fn is_share(path: Seq<char>, parts: Seq<PartView>) -> bool {
    path.len() > 2 && path[2] != '?' && path[2] != '.' && parts.len() >= 2 && parts[0] is Prefix
        && parts[1] is Root
}

/// Whether the text and the parts are those of a drive in the long form, such as `\\?\C:\`, with its
/// root directory and with names alone behind it.
pub open spec fn is_long_drive(path: Seq<char>, parts: Seq<PartView>) -> bool {
    &&& begins_with_two_separators(path)
    &&& path.len() > 6 && path[2] == '?' && path[5] == ':' && is_separator(path[6])
    &&& parts.len() >= 2 && parts[0] is Prefix && parts[1] is Root
    &&& forall|i: int| 2 <= i < parts.len() ==> (#[trigger] parts[i]) is Name
}

/// Whether a path with the given text and parts keeps its parts when a name is put behind it.
pub open spec fn joinable(path: Seq<char>, parts: Seq<PartView>) -> bool {
    ||| !begins_with_two_separators(path)
    ||| parts.len() > 0 && parts[0] is Name
    ||| is_share(path, parts)
    ||| is_long_drive(path, parts)
}

/// Whether a path keeps its parts when a name is put behind it.
pub open spec fn can_join(path: &Path) -> bool {
    joinable(path_text(path), path_parts(path))
}

/// Whether an owned path keeps its parts when a name is put behind it.
pub open spec fn can_join_buf(path: PathBuf) -> bool {
    joinable(path_buf_text(path), path_buf_parts(path))
}

/// Whether the text of a path is kept as well when a name is put behind it. In the long form it may
/// be written anew.
pub open spec fn keeps_text(path: &Path) -> bool {
    can_join(path) && !is_long_drive(path_text(path), path_parts(path))
}

/// Whether `inner` is the text `outer` with the name behind it, and a separator between them
/// where one is needed.
pub open spec fn is_joined_text(outer: Seq<char>, name: Seq<char>, inner: Seq<char>) -> bool {
    ||| inner == outer + name
    ||| inner == outer.push('/') + name
    ||| inner == outer.push('\\') + name
}

/// The name that a path ends in, if it ends in a name.
pub open spec fn file_name_of(parts: Seq<PartView>) -> Option<Seq<char>> {
    if parts.len() > 0 {
        match parts.last() {
            PartView::Name(name) => Some(name),
            _ => None,
        }
    } else {
        None
    }
}

/// The parts of the directory that a path lies in, if it has one: the path itself must end in a
/// name or in a step within the file system.
pub open spec fn parent_parts(parts: Seq<PartView>) -> Option<Seq<PartView>> {
    if parts.len() > 0 && !(parts.last() is Prefix) && !(parts.last() is Root) {
        Some(parts.drop_last())
    } else {
        None
    }
}

/// `PathBuf::as_path` borrows an owned path, which has the same parts and the same text.
#[verifier::external_body]
pub(crate) fn borrow(path: &PathBuf) -> (borrowed: &Path)
    ensures
        path_parts(borrowed) == path_buf_parts(*path),
        path_text(borrowed) == path_buf_text(*path),
{
    path.as_path()
}

/// `Path::to_path_buf` copies a path, with its parts and its text.
#[verifier::external_body]
pub(crate) fn own(path: &Path) -> (owned: PathBuf)
    ensures
        path_buf_parts(owned) == path_parts(path),
        path_buf_text(owned) == path_text(path),
{
    path.to_path_buf()
}

/// `Path::to_string_lossy` gives the text of a path.
#[verifier::external_body]
pub(crate) fn text_of(path: &Path) -> (s: String)
    ensures
        s@ == path_text(path),
{
    path.to_string_lossy().into_owned()
}

/// `Path::file_name` gives the name that a path ends in, if it ends in a name.
#[verifier::external_body]
pub(crate) fn file_name(path: &Path) -> (found: Option<String>)
    ensures
        match found {
            Some(name) => file_name_of(path_parts(path)) == Some(name@),
            None => file_name_of(path_parts(path)) is None,
        },
{
    path.file_name().map(|name| name.to_string_lossy().into_owned())
}

/// The parts of what `Path::join` gives for a path and a name.
pub uninterp spec fn joined_parts(path: &Path, name: Seq<char>) -> Seq<PartView>;

/// `Path::join` puts the name of a file or directory behind a path, and another name can be put
/// behind the result. The text grows by the name too, but in the long form. Of the other paths
/// that begin with two separators, nothing is said but that the same path and name give the same
/// result: on Windows the name can become part of what stands before it there.
#[verifier::external_body]
pub(crate) fn join(path: &Path, name: &str) -> (inner: PathBuf)
    requires
        is_file_name(name@),
    ensures
        path_buf_parts(inner) == joined_parts(path, name@),
        can_join(path) ==> leads_to(path_parts(path), seq![name@], path_buf_parts(inner))
            && can_join_buf(inner),
        keeps_text(path) ==> is_joined_text(path_text(path), name@, path_buf_text(inner)),
{
    path.join(name)
}

/// `Path::parent` gives the directory that a path lies in, if it has one. Its text begins the
/// text of the path, and a name can be put behind it if one can be put behind the path.
#[verifier::external_body]
pub(crate) fn parent(path: &Path) -> (outer: Option<PathBuf>)
    ensures
        match outer {
            Some(outer) => parent_parts(path_parts(path)) == Some(path_buf_parts(outer))
                && path_buf_text(outer).is_prefix_of(path_text(path)) && (can_join(path)
                ==> can_join_buf(outer)),
            None => parent_parts(path_parts(path)) is None,
        },
{
    path.parent().map(Path::to_path_buf)
}

/// The path that is reached from another one by the names.
pub(crate) fn join_names(path: &Path, names: &[&str]) -> (inner: PathBuf)
    requires
        forall|i: int| 0 <= i < names@.len() ==> is_file_name((#[trigger] names@[i])@),
    ensures
        can_join(path) ==> leads_to(
            path_parts(path),
            names@.map_values(|name: &str| name@),
            path_buf_parts(inner),
        ),
{
    let ghost all = names@.map_values(|name: &str| name@);
    let mut inner = own(path);
    let mut i: usize = 0;
    assert(path_buf_parts(inner) =~= path_parts(path) + name_parts(all.take(0)));
    while i < names.len()
        invariant
            i <= names@.len(),
            all == names@.map_values(|name: &str| name@),
            forall|i: int| 0 <= i < names@.len() ==> is_file_name((#[trigger] names@[i])@),
            can_join(path) ==> can_join_buf(inner) && leads_to(
                path_parts(path),
                all.take(i as int),
                path_buf_parts(inner),
            ),
        decreases names@.len() - i,
    {
        inner = join(borrow(&inner), names[i]);
        assert(path_parts(path) + name_parts(all.take(i + 1)) =~= path_parts(path) + name_parts(
            all.take(i as int),
        ) + name_parts(seq![names@[i as int]@]));
        i = i + 1;
    }
    assert(all.take(i as int) == all);
    inner
}

} // verus!
