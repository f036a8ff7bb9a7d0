//! The few questions the library asks of `std::path` about file paths, held as
//! plain strings. Each is answered by the standard library itself; the
//! contracts below name each answer as a function of the strings alone and say
//! nothing more of it.
use std::path::Path;
use vstd::prelude::*;

verus! {

/// What `Path::starts_with` answers for two paths: whether `base` is a prefix of
/// `path` component by component.
pub uninterp spec fn path_starts_with(path: Seq<char>, base: Seq<char>) -> bool;

/// What `Path::extension` gives for a path, already as text.
pub uninterp spec fn path_extension(path: Seq<char>) -> Option<Seq<char>>;

/// What `Path::file_stem` gives for a path, already as text.
pub uninterp spec fn path_file_stem(path: Seq<char>) -> Option<Seq<char>>;

/// What `Path::is_absolute` answers for a path.
pub uninterp spec fn path_is_absolute(path: Seq<char>) -> bool;

/// What `Path::join` gives for a base and a further path, as text.
pub uninterp spec fn path_join(base: Seq<char>, rest: Seq<char>) -> Seq<char>;

/// What `Path::parent` gives for a path, as text (`None` for a root or an
/// empty path).
pub uninterp spec fn path_parent(path: Seq<char>) -> Option<Seq<char>>;

/// What `==` on two `Path`s answers: equality of their components.
pub uninterp spec fn path_equal(a: Seq<char>, b: Seq<char>) -> bool;

/// Calls `Path::starts_with`; the result is [`path_starts_with`] of the two strings.
#[verifier::external_body]
pub(crate) fn path_is_under(path: &str, base: &str) -> (r: bool)
    ensures
        r == path_starts_with(path@, base@),
{
    Path::new(path).starts_with(base)
}

/// Calls `Path::extension` on a path given as UTF-8 text. The extension is a
/// slice of that text, so converting it back to `&str` never fails; the result
/// is [`path_extension`] of the path.
#[verifier::external_body]
pub(crate) fn extension_of(path: &str) -> (r: Option<String>)
    ensures
        r is Some <==> path_extension(path@) is Some,
        r matches Some(e) ==> e@ == path_extension(path@).unwrap(),
{
    Path::new(path).extension().and_then(|e| e.to_str()).map(|e| e.to_string())
}

/// Calls `Path::file_stem` on a path given as UTF-8 text; the result is
/// [`path_file_stem`] of the path.
#[verifier::external_body]
pub(crate) fn file_stem_of(path: &str) -> (r: Option<String>)
    ensures
        r is Some <==> path_file_stem(path@) is Some,
        r matches Some(e) ==> e@ == path_file_stem(path@).unwrap(),
{
    Path::new(path).file_stem().and_then(|e| e.to_str()).map(|e| e.to_string())
}

/// Calls `Path::is_absolute`; the result is [`path_is_absolute`] of the path.
#[verifier::external_body]
pub(crate) fn is_absolute_path(path: &str) -> (r: bool)
    ensures
        r == path_is_absolute(path@),
{
    Path::new(path).is_absolute()
}

/// Calls `Path::join` on two UTF-8 paths; joining UTF-8 text gives UTF-8 text,
/// and the result is [`path_join`] of the two.
#[verifier::external_body]
pub(crate) fn join_paths(base: &str, rest: &str) -> (r: String)
    ensures
        r@ == path_join(base@, rest@),
{
    Path::new(base).join(rest).to_string_lossy().into_owned()
}

/// Calls `Path::parent` on a UTF-8 path; the parent is a slice of that text,
/// so it converts back to `&str`; the result is [`path_parent`] of the path.
#[verifier::external_body]
pub(crate) fn parent_of(path: &str) -> (r: Option<String>)
    ensures
        r is Some <==> path_parent(path@) is Some,
        r matches Some(p) ==> p@ == path_parent(path@).unwrap(),
{
    Path::new(path).parent().and_then(|p| p.to_str()).map(|p| p.to_string())
}

/// Compares two paths with `==` on `Path`; the result is [`path_equal`] of the two.
#[verifier::external_body]
pub(crate) fn same_path(a: &str, b: &str) -> (r: bool)
    ensures
        r == path_equal(a@, b@),
{
    Path::new(a) == Path::new(b)
}

} // verus!
