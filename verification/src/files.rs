//! Which file a save or an export writes: the document is always written as
//! a `.mmd` file, next to the file it was loaded from, or as `graph.mmd`.
use vstd::prelude::*;
use std::path::Path;
use crate::text::{chars_of, chars_are, push_str};

verus! {

/// The extension `std::path::Path::extension` finds in `path`.
pub uninterp spec fn path_extension(path: Seq<char>) -> Option<Seq<char>>;

/// The path `std::path::Path::with_extension` makes of `path` and
/// `extension`.
pub uninterp spec fn path_with_extension(path: Seq<char>, extension: Seq<char>) -> Seq<char>;

/// The extension of a path, by `Path::extension` (the part of the file name
/// after its last `.`, if it has one that does not start it). The contract
/// only names the result; what it is for a given path (the file name as
/// `Path` splits paths into components) is left unsaid. The extension of a
/// `&str` path is text, so it converts without loss.
#[verifier::external_body]
fn extension_of(path: &str) -> (r: Option<String>)
    ensures
        match r {
            Some(e) => path_extension(path@) == Some(e@),
            None => path_extension(path@) is None,
        },
{
    match Path::new(path).extension() {
        Some(e) => Some(e.to_string_lossy().into_owned()),
        None => None,
    }
}

/// Whether `extension` holds no path separator (a slash, or a backslash on
/// systems where that separates paths too), which `Path::with_extension`
/// panics on.
pub open spec fn no_separator(extension: Seq<char>) -> bool {
    forall|i: int| 0 <= i < extension.len() ==> #[trigger] extension[i] != '/' && extension[i] != '\\'
}

/// `path` with its extension replaced by `extension`, by
/// `Path::with_extension`, which panics when the extension holds a path
/// separator; the `requires` leaves those extensions out. The contract only
/// names the result; which part of the path it replaces (after the file
/// stem, or nothing when the path has no file name) is left unsaid. Both
/// inputs are text, so the result converts without loss.
#[verifier::external_body]
fn with_extension_of(path: &str, extension: &str) -> (r: String)
    requires
        no_separator(extension@),
    ensures
        r@ == path_with_extension(path@, extension@),
{
    Path::new(path).with_extension(extension).to_string_lossy().into_owned()
}

/// The file a save writes: the file the document was loaded from when its
/// extension is `mmd`, else that file with its extension changed to `mmd`,
/// else `graph.mmd`.
pub open spec fn save_target_of(loaded: Option<Seq<char>>) -> Seq<char> {
    match loaded {
        None => "graph.mmd"@,
        Some(p) => if path_extension(p) == Some("mmd"@) {
            p
        } else {
            path_with_extension(p, "mmd"@)
        },
    }
}

/// The file an export writes: the file the document was loaded from with
/// its extension changed to `mmd`, else `graph.mmd`.
pub open spec fn export_target_of(loaded: Option<Seq<char>>) -> Seq<char> {
    match loaded {
        None => "graph.mmd"@,
        Some(p) => path_with_extension(p, "mmd"@),
    }
}

fn default_target() -> (r: String)
    ensures
        r@ == "graph.mmd"@,
{
    let mut r = String::new();
    push_str(&mut r, "graph.mmd");
    r
}

/// The file a save writes, for the file the document was loaded from.
pub fn save_target(loaded: Option<&str>) -> (r: String)
    ensures
        r@ == save_target_of(
            match loaded {
                Some(p) => Some(p@),
                None => None,
            },
        ),
{
    match loaded {
        None => default_target(),
        Some(p) => {
            let is_mmd = match extension_of(p) {
                Some(e) => {
                    let ec = chars_of(e.as_str());
                    chars_are(ec.as_slice(), "mmd")
                },
                None => false,
            };
            proof {
                reveal_strlit("mmd");
            }
            if is_mmd {
                let mut r = String::new();
                push_str(&mut r, p);
                r
            } else {
                with_extension_of(p, "mmd")
            }
        },
    }
}

/// The file an export writes, for the file the document was loaded from.
pub fn export_target(loaded: Option<&str>) -> (r: String)
    ensures
        r@ == export_target_of(
            match loaded {
                Some(p) => Some(p@),
                None => None,
            },
        ),
{
    match loaded {
        None => default_target(),
        Some(p) => {
            proof {
                reveal_strlit("mmd");
            }
            with_extension_of(p, "mmd")
        },
    }
}

} // verus!
