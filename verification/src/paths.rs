use vstd::prelude::*;

verus! {

/// What `Path::file_stem` gives for a path with these characters, read back
/// as a string (the stem of a `str` path is always valid UTF-8).
pub uninterp spec fn file_stem_of(path: Seq<char>) -> Option<Seq<char>>;

/// Calls `Path::file_stem` on `path` and reads the stem back as a string.
/// Claimed: the result is `file_stem_of(path@)`, a function of the path's
/// characters alone; how the stem is cut from the path is left unstated.
#[verifier::external_body]
pub(crate) fn file_stem(path: &str) -> (r: Option<String>)
    ensures
        match r {
            Some(s) => file_stem_of(path@) == Some(s@),
            None => file_stem_of(path@) is None,
        },
{
    let stem = std::path::Path::new(path).file_stem()?;
    Some(stem.to_str()?.to_string())
}


/// What `Path::extension` gives for a path with these characters, read back
/// as a string.
pub uninterp spec fn extension_of(path: Seq<char>) -> Option<Seq<char>>;

/// Calls `Path::extension` on `path` and reads the extension back as a
/// string. Claimed: the result is `extension_of(path@)`, a function of the
/// path's characters alone; how the extension is found is left unstated.
#[verifier::external_body]
pub(crate) fn extension(path: &str) -> (r: Option<String>)
    ensures
        match r {
            Some(s) => extension_of(path@) == Some(s@),
            None => extension_of(path@) is None,
        },
{
    let ext = std::path::Path::new(path).extension()?;
    Some(ext.to_str()?.to_string())
}

/// What `Path::join` gives for `base` joined with `part`, as a string.
pub uninterp spec fn joined_path(base: Seq<char>, part: Seq<char>) -> Seq<char>;

/// Calls `Path::join` on `base` and `part` and reads the result back as a
/// string. Claimed: the result is `joined_path(base@, part@)`, a function of
/// the two strings alone; the separator and the rules for absolute parts
/// (which differ between platforms) are left unstated.
#[verifier::external_body]
pub(crate) fn join(base: &str, part: &str) -> (r: String)
    ensures
        r@ == joined_path(base@, part@),
{
    std::path::Path::new(base).join(part).to_string_lossy().into_owned()
}

/// What `Path::parent` gives for a path with these characters, as a string.
pub uninterp spec fn parent_of(path: Seq<char>) -> Option<Seq<char>>;

/// Calls `Path::parent` on `path` and reads the parent back as a string.
/// Claimed: the result is `parent_of(path@)`, a function of the path's
/// characters alone; how the last component is cut off is left unstated.
#[verifier::external_body]
pub(crate) fn parent(path: &str) -> (r: Option<String>)
    ensures
        match r {
            Some(s) => parent_of(path@) == Some(s@),
            None => parent_of(path@) is None,
        },
{
    match std::path::Path::new(path).parent() {
        Some(p) => Some(p.to_string_lossy().into_owned()),
        None => None,
    }
}

/// Whether `std::path::is_separator` holds of the character `c`, other
/// than `/`, on this platform.
pub uninterp spec fn path_separator(c: char) -> bool;

/// Whether `c` separates the components of a path: `/` everywhere, and what
/// else the platform takes.
pub open spec fn separator(c: char) -> bool {
    c == '/' || path_separator(c)
}

/// Calls `std::path::is_separator`. Claimed: `/` is a separator on every
/// platform, and for any other character the answer is `path_separator(c)`;
/// which other characters are separators (`\` on Windows) is left unstated.
#[verifier::external_body]
pub(crate) fn is_separator(c: char) -> (r: bool)
    ensures
        r == (c == '/' || path_separator(c)),
{
    std::path::is_separator(c)
}

/// The folder that holds the file at `path`: its parent, or nothing when it
/// has none.
pub open spec fn folder_of(path: Seq<char>) -> Seq<char> {
    match parent_of(path) {
        Some(p) => p,
        None => seq![],
    }
}

/// The folder that holds the file at `path`, empty when the path has no
/// parent.
pub fn folder_path(path: &str) -> (r: String)
    ensures
        r@ == folder_of(path@),
{
    match parent(path) {
        Some(p) => p,
        None => String::new(),
    }
}

} // verus!
