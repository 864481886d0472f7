//! File-name pieces of a path, as `std::path::Path` computes them.
//!
//! Path decomposition (component normalisation, trailing separators, `.`
//! and `..`) is std's own; the results are named, not restated.
use vstd::prelude::*;
use crate::text::lacks;

verus! {

/// A bare file name: non-empty, not starting with `.`, and with no
/// separator or drive colon, so that it is its own single component.
pub open spec fn plain_name(p: Seq<char>) -> bool {
    p.len() > 0 && p[0] != '.' && lacks(p, '/') && lacks(p, '\\') && lacks(p, ':')
}

/// Index of the last `.` in `p`.
pub open spec fn last_dot(p: Seq<char>) -> Option<int>
    decreases p.len(),
{
    if p.len() == 0 {
        None
    } else if p.last() == '.' {
        Some(p.len() - 1)
    } else {
        last_dot(p.drop_last())
    }
}

/// The stem of a bare file name: the part before its final `.`, or the
/// whole name when it has none.
pub open spec fn name_stem(p: Seq<char>) -> Seq<char> {
    match last_dot(p) {
        Some(i) => p.take(i),
        None => p,
    }
}

/// What `Path::new(p).file_name()` gives for `p`.
pub uninterp spec fn file_name_of(p: Seq<char>) -> Option<Seq<char>>;

/// What `Path::new(p).file_stem()` gives for `p`.
pub uninterp spec fn file_stem_of(p: Seq<char>) -> Option<Seq<char>>;

/// What `Path::new(p).extension()` gives for `p`.
pub uninterp spec fn extension_of(p: Seq<char>) -> Option<Seq<char>>;

/// What `Path::new(p).with_extension(ext)` gives.
pub uninterp spec fn with_extension_of(p: Seq<char>, ext: Seq<char>) -> Seq<char>;

/// `Path::file_name`: the final component, `None` when the path ends in
/// `..` or is a root. The result is the one `file_name_of` names.
#[verifier::external_body]
pub(crate) fn path_file_name(p: &str) -> (r: Option<String>)
    ensures
        match r {
            Some(s) => file_name_of(p@) == Some(s@),
            None => file_name_of(p@) is None,
        },
{
    std::path::Path::new(p).file_name().and_then(|s| s.to_str()).map(|s| s.to_string())
}

/// `Path::file_stem`: the file name without its final extension. As std
/// documents it, a bare name's stem is the part before its final `.`, or
/// the whole name when it has no `.`.
#[verifier::external_body]
pub(crate) fn path_file_stem(p: &str) -> (r: Option<String>)
    ensures
        match r {
            Some(s) => file_stem_of(p@) == Some(s@),
            None => file_stem_of(p@) is None,
        },
        plain_name(p@) ==> r is Some && r.unwrap()@ == name_stem(p@),
{
    std::path::Path::new(p).file_stem().and_then(|s| s.to_str()).map(|s| s.to_string())
}

/// `Path::extension`: the text after the last `.` of the file name.
#[verifier::external_body]
pub(crate) fn path_extension(p: &str) -> (r: Option<String>)
    ensures
        match r {
            Some(s) => extension_of(p@) == Some(s@),
            None => extension_of(p@) is None,
        },
{
    std::path::Path::new(p).extension().and_then(|s| s.to_str()).map(|s| s.to_string())
}

/// `Path::with_extension`: the path with its extension replaced by `ext`.
/// As std documents `PathBuf::set_extension`, a path with a file name gets
/// `ext` as its extension; an extension that holds a `.` shows only its last
/// part, and one that holds a separator panics, so `ext` has none.
#[verifier::external_body]
pub(crate) fn path_with_extension(p: &str, ext: &str) -> (r: String)
    requires
        lacks(ext@, '/'),
        lacks(ext@, '\\'),
    ensures
        r@ == with_extension_of(p@, ext@),
        file_name_of(p@) is Some && ext@.len() > 0 && lacks(ext@, '.') ==> extension_of(r@)
            == Some(ext@) && file_name_of(r@) is Some,
{
    std::path::Path::new(p).with_extension(ext).to_string_lossy().into_owned()
}

/// What `Path::new(dir).join(name)` gives.
pub uninterp spec fn joined_path(dir: Seq<char>, name: Seq<char>) -> Seq<char>;

/// `Path::join`: `name` appended to `dir` as a further component. The
/// result is the one `joined_path` names.
#[verifier::external_body]
pub(crate) fn path_join(dir: &str, name: &str) -> (r: String)
    ensures
        r@ == joined_path(dir@, name@),
{
    std::path::Path::new(dir).join(name).to_string_lossy().into_owned()
}

} // verus!
