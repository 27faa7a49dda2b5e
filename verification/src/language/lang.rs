use vstd::prelude::*;
use crate::text::str_eq;

verus! {

/// A language whose source files can be searched.
#[derive(Clone, Copy, Debug, PartialEq, Eq, Hash, Structural)]
pub enum Lang {
    Rust,
    TypeScript,
    Tsx,
    JavaScript,
}

/// The language of source files with the extension `ext`.
pub open spec fn lang_of_extension(ext: Seq<char>) -> Option<Lang> {
    if ext == "rs"@ {
        Some(Lang::Rust)
    } else if ext == "ts"@ {
        Some(Lang::TypeScript)
    } else if ext == "tsx"@ {
        Some(Lang::Tsx)
    } else if ext == "js"@ {
        Some(Lang::JavaScript)
    } else {
        None
    }
}

/// The language of source files with the extension `ext` (without its dot).
pub fn lang_for_extension(ext: &str) -> (r: Option<Lang>)
    ensures
        r == lang_of_extension(ext@),
{
    if str_eq(ext, "rs") {
        Some(Lang::Rust)
    } else if str_eq(ext, "ts") {
        Some(Lang::TypeScript)
    } else if str_eq(ext, "tsx") {
        Some(Lang::Tsx)
    } else if str_eq(ext, "js") {
        Some(Lang::JavaScript)
    } else {
        None
    }
}

/// The extension that `std::path::Path::extension` finds in the path spelled
/// by `path` (the part of the file name after its last dot, with no dot in a
/// name that has only a leading one), read as text; `None` where it finds
/// none.
pub uninterp spec fn path_extension(path: Seq<char>) -> Option<Seq<char>>;

/// `std::path::Path::extension` of the path spelled by `path`; the path goes
/// in as `&str` and the extension comes back as `&str`, which is all the
/// conversion these calls do.
#[verifier::external_body]
fn extension_of(path: &str) -> (r: Option<&str>)
    ensures
        r matches Some(e) ==> path_extension(path@) == Some(e@),
        r is None ==> path_extension(path@) is None,
{
    match std::path::Path::new(path).extension() {
        Some(e) => e.to_str(),
        None => None,
    }
}

/// The language of the file at `path`, by the extension of its name.
pub fn lang_for_path(path: &str) -> (r: Option<Lang>)
    ensures
        r == match path_extension(path@) {
            Some(ext) => lang_of_extension(ext),
            None => None,
        },
{
    match extension_of(path) {
        Some(ext) => lang_for_extension(ext),
        None => None,
    }
}

} // verus!
