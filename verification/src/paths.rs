//! Path arithmetic, done by `std::path` on `/`-separated paths held as strings.
use vstd::prelude::*;
use crate::text::opt_view;

verus! {

/// Position of the last `.` in `s`.
pub open spec fn last_dot(s: Seq<char>) -> Option<int>
    decreases s.len(),
{
    if s.len() == 0 {
        None
    } else if s.last() == '.' {
        Some(s.len() - 1)
    } else {
        last_dot(s.drop_last())
    }
}

/// The extension of a file name, as `Path::extension` documents it: none without a file
/// name, without a `.`, or when the only `.` is the first character; otherwise what follows
/// the last `.`.
pub open spec fn extension_in(name: Option<Seq<char>>) -> Option<Seq<char>> {
    match name {
        Some(n) => match last_dot(n) {
            Some(d) => if d > 0 { Some(n.skip(d + 1)) } else { None },
            None => None,
        },
        None => None,
    }
}

/// The stem of a file name, as `Path::file_stem` documents it: none without a file name; the
/// whole name without a `.` or when the only `.` is the first character; otherwise what
/// precedes the last `.`.
pub open spec fn stem_in(name: Option<Seq<char>>) -> Option<Seq<char>> {
    match name {
        Some(n) => match last_dot(n) {
            Some(d) => if d > 0 { Some(n.take(d)) } else { Some(n) },
            None => Some(n),
        },
        None => None,
    }
}

proof fn lemma_last_dot(s: Seq<char>)
    ensures
        last_dot(s) matches Some(d) ==> 0 <= d < s.len() && s[d] == '.',
    decreases s.len(),
{
    if s.len() > 0 && s.last() != '.' {
        lemma_last_dot(s.drop_last());
    }
}

/// Where a path's file name has an extension, the name is its stem, a dot and the extension.
pub proof fn lemma_stem_dot_extension(p: Seq<char>)
    ensures
        path_extension(p) matches Some(e) ==> (path_file_stem(p) matches Some(st) && path_file_name(p)
            == Some(st + seq!['.'] + e)),
{
    match path_file_name(p) {
        Some(n) => {
            lemma_last_dot(n);
            match last_dot(n) {
                Some(d) => {
                    if d > 0 {
                        assert(n =~= n.take(d) + seq!['.'] + n.skip(d + 1));
                    }
                },
                None => {},
            }
        },
        None => {},
    }
}

/// What `Path::extension` gives for the path `p`.
pub open spec fn path_extension(p: Seq<char>) -> Option<Seq<char>> {
    extension_in(path_file_name(p))
}

/// What `Path::parent` gives for the path `p`.
pub uninterp spec fn path_parent(p: Seq<char>) -> Option<Seq<char>>;

/// What `Path::join` gives for `base` and `name`.
pub uninterp spec fn path_join(base: Seq<char>, name: Seq<char>) -> Seq<char>;

/// Whether `Path`'s `==` (which compares components) holds of `a` and `b`.
pub uninterp spec fn path_eq(a: Seq<char>, b: Seq<char>) -> bool;

/// What `Path::file_name` gives for the path `p`.
pub uninterp spec fn path_file_name(p: Seq<char>) -> Option<Seq<char>>;

/// What `Path::file_stem` gives for the path `p`.
pub open spec fn path_file_stem(p: Seq<char>) -> Option<Seq<char>> {
    stem_in(path_file_name(p))
}

/// What `Path::strip_prefix` gives for `p` and `base`.
pub uninterp spec fn path_strip_prefix(p: Seq<char>, base: Seq<char>) -> Option<Seq<char>>;

/// Calls `Path::extension`: the part of the file name after its last dot, as its
/// documentation states it over `Path::file_name` (see `extension_in`).
#[verifier::external_body]
pub(crate) fn extension_of(p: &str) -> (r: Option<String>)
    ensures
        opt_view(r) == path_extension(p@),
{
    std::path::Path::new(p).extension().map(|e| e.to_string_lossy().into_owned())
}

/// Calls `Path::parent`: the path without its last component, if it has one.
/// The result is named, not stated.
#[verifier::external_body]
pub(crate) fn parent_of(p: &str) -> (r: Option<String>)
    ensures
        opt_view(r) == path_parent(p@),
{
    std::path::Path::new(p).parent().map(|q| q.to_string_lossy().into_owned())
}

/// Calls `Path::join`: `name` appended to `base` (or `name` alone when it is absolute).
/// The result is named, not stated.
#[verifier::external_body]
pub(crate) fn join_paths(base: &str, name: &str) -> (r: String)
    ensures
        r@ == path_join(base@, name@),
{
    std::path::Path::new(base).join(name).to_string_lossy().into_owned()
}

/// Calls `Path`'s `==`, which compares the paths component by component. Of the result it
/// is stated only that a path equals itself.
#[verifier::external_body]
pub(crate) fn paths_equal(a: &str, b: &str) -> (r: bool)
    ensures
        r == path_eq(a@, b@),
        a@ == b@ ==> r,
{
    std::path::Path::new(a) == std::path::Path::new(b)
}

/// Calls `Path::file_name`: the last component, unless the path ends in `..`.
/// The result is named, not stated.
#[verifier::external_body]
pub(crate) fn file_name_of(p: &str) -> (r: Option<String>)
    ensures
        opt_view(r) == path_file_name(p@),
{
    std::path::Path::new(p).file_name().map(|q| q.to_string_lossy().into_owned())
}

/// Calls `Path::file_stem`: the file name without its extension, as its documentation
/// states it over `Path::file_name` (see `stem_in`).
#[verifier::external_body]
pub(crate) fn file_stem_of(p: &str) -> (r: Option<String>)
    ensures
        opt_view(r) == path_file_stem(p@),
{
    std::path::Path::new(p).file_stem().map(|q| q.to_string_lossy().into_owned())
}

/// Calls `Path::strip_prefix`: `p` relative to `base`, when `base` is a prefix of it.
/// The result is named, not stated.
#[verifier::external_body]
pub(crate) fn strip_prefix_of(p: &str, base: &str) -> (r: Option<String>)
    ensures
        opt_view(r) == path_strip_prefix(p@, base@),
{
    std::path::Path::new(p).strip_prefix(base).ok().map(|q| q.to_string_lossy().into_owned())
}

} // verus!
