//! Paths as UTF-8 text, with the operations of the `camino` crate.
use crate::text;
use vstd::prelude::*;

verus! {

/// A path followed by another: an absolute one replaces it, a relative one is put behind it with a
/// slash between, unless nothing or a slash stands there already.
pub open spec fn joined(base: Seq<char>, path: Seq<char>) -> Seq<char> {
    if path.len() > 0 && path[0] == '/' {
        path
    } else if base.len() == 0 || base.last() == '/' {
        base + path
    } else {
        base + "/"@ + path
    }
}

/// `camino::Utf8Path::file_name` of a path.
pub uninterp spec fn last_component(path: Seq<char>) -> Option<Seq<char>>;

/// `camino::Utf8Path::join`, on Unix.
#[verifier::external_body]
pub(crate) fn join(base: &str, path: &str) -> (r: String)
    ensures
        r@ == joined(base@, path@),
{
    camino::Utf8Path::new(base).join(path).into_string()
}

/// `camino::Utf8Path::file_name`: the last component of a path, if it is a normal one. It depends
/// on the path alone.
#[verifier::external_body]
pub(crate) fn file_name(path: &str) -> (r: Option<&str>)
    ensures
        text::opt_slice_view(r) == last_component(path@),
{
    camino::Utf8Path::new(path).file_name()
}

/// `camino::Utf8Path::parent` of a path.
pub uninterp spec fn parent_of(path: Seq<char>) -> Option<Seq<char>>;

/// The last of `camino::Utf8Path::components` of a path.
pub uninterp spec fn final_component(path: Seq<char>) -> Option<Seq<char>>;

/// `camino::Utf8Path::parent`: the path without its last component, nothing of one that ends in a
/// root. It depends on the path alone.
#[verifier::external_body]
pub(crate) fn parent(path: &str) -> (r: Option<&str>)
    ensures
        text::opt_slice_view(r) == parent_of(path@),
{
    camino::Utf8Path::new(path).parent().map(|p| p.as_str())
}

/// The last of `camino::Utf8Path::components`, of whatever kind. It depends on the path alone.
#[verifier::external_body]
pub(crate) fn last_of_components(path: &str) -> (r: Option<&str>)
    ensures
        text::opt_slice_view(r) == final_component(path@),
{
    camino::Utf8Path::new(path).components().last().map(|c| c.as_str())
}

/// What follows the last dot of a file name, unless the name starts with it.
pub open spec fn extension_of(name: Seq<char>) -> Option<Seq<char>> {
    if name == ".."@ {
        None
    } else {
        match text::split_at_last(name, '.') {
            Some((stem, ext)) => if stem.len() == 0 {
                None
            } else {
                Some(ext)
            },
            None => None,
        }
    }
}

/// What follows the last dot of a file name, unless the name starts with it.
pub fn extension(name: &str) -> (r: Option<&str>)
    ensures
        text::opt_slice_view(r) == extension_of(name@),
{
    if text::same(name, "..") {
        return None;
    }
    match text::rsplit_once(name, '.') {
        Some((stem, ext)) => if stem.unicode_len() == 0 {
            None
        } else {
            Some(ext)
        },
        None => None,
    }
}

/// The extension of a file name is what follows its last dot, if anything stands before that dot.
pub proof fn law_extension(stem: Seq<char>, ext: Seq<char>)
    requires
        !ext.contains('.'),
    ensures
        stem.len() > 0 && stem + seq!['.'] + ext != ".."@ ==> extension_of(
            stem + seq!['.'] + ext,
        ) == Some(ext),
        extension_of(seq!['.'] + ext) is None,
        extension_of(ext) is None,
{
    text::law_split_at_last(stem, '.', ext);
    text::law_split_at_last(Seq::empty(), '.', ext);
    assert(Seq::<char>::empty() + seq!['.'] + ext =~= seq!['.'] + ext);
}

} // verus!
