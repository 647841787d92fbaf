//! Scene files are authored per orientation: for `dir/boot.toml` the file
//! `dir/boot.<orientation>.toml` is used when it exists, else `dir/boot.toml`.

use vstd::prelude::*;

use crate::panel::Orientation;
use crate::text::push_str;

verus! {

broadcast use vstd::string::group_string_axioms;

/// `Path::file_stem` of `p`, as text.
pub uninterp spec fn path_stem(p: Seq<char>) -> Option<Seq<char>>;

/// `Path::extension` of `p`, as text.
pub uninterp spec fn path_extension(p: Seq<char>) -> Option<Seq<char>>;

/// `Path::with_file_name(name)` of `p`, as text.
pub uninterp spec fn path_with_file_name(p: Seq<char>, name: Seq<char>) -> Seq<char>;

/// `Path::file_stem` (the file name without its last extension).
#[verifier::external_body]
fn file_stem(p: &str) -> (r: Option<String>)
    ensures
        r matches Some(s) ==> path_stem(p@) == Some(s@),
        r is None ==> path_stem(p@) is None,
{
    match std::path::Path::new(p).file_stem() {
        Some(s) => Some(s.to_string_lossy().into_owned()),
        None => None,
    }
}

/// `Path::extension` (the part of the file name after its last dot).
#[verifier::external_body]
fn extension(p: &str) -> (r: Option<String>)
    ensures
        r matches Some(s) ==> path_extension(p@) == Some(s@),
        r is None ==> path_extension(p@) is None,
{
    match std::path::Path::new(p).extension() {
        Some(s) => Some(s.to_string_lossy().into_owned()),
        None => None,
    }
}

/// `Path::with_file_name`: `p` with its last component replaced by `name`.
#[verifier::external_body]
fn with_file_name(p: &str, name: &str) -> (r: String)
    ensures
        r@ == path_with_file_name(p@, name@),
{
    std::path::Path::new(p).with_file_name(name).to_string_lossy().into_owned()
}

/// `Path::is_file`: whether a regular file exists at `p` right now. Nothing is
/// promised of the answer: it depends on the disk.
#[verifier::external_body]
fn is_file(p: &str) -> bool {
    std::path::Path::new(p).is_file()
}

/// `dir/name.ext` as `dir/name.<tag>.ext`, when `base` has both a stem and an
/// extension.
pub open spec fn variant_of(base: Seq<char>, tag: Seq<char>) -> Option<Seq<char>> {
    match (path_stem(base), path_extension(base)) {
        (Some(stem), Some(ext)) => Some(path_with_file_name(base, stem + seq!['.'] + tag + seq!['.'] + ext)),
        _ => None,
    }
}

/// `dir/name.ext` -> `dir/name.<tag>.ext`.
pub fn variant_path(base: &str, tag: &str) -> (r: Option<String>)
    ensures
        match r {
            Some(p) => variant_of(base@, tag@) == Some(p@),
            None => variant_of(base@, tag@) is None,
        },
{
    let stem = match file_stem(base) {
        Some(s) => s,
        None => return None,
    };
    let ext = match extension(base) {
        Some(e) => e,
        None => return None,
    };
    proof {
        reveal_strlit(".");
    }
    let ghost stem_v = stem@;
    let mut name = stem;
    push_str(&mut name, ".");
    push_str(&mut name, tag);
    push_str(&mut name, ".");
    push_str(&mut name, ext.as_str());
    assert(name@ == stem_v + seq!['.'] + tag@ + seq!['.'] + ext@);
    Some(with_file_name(base, name.as_str()))
}

/// The scene file to load: the variant when it exists on disk, else `base`.
pub fn choose_scene_path(base: &str, variant: Option<String>, variant_exists: bool) -> (r: String)
    ensures
        r@ == match variant {
            Some(v) => if variant_exists {
                v@
            } else {
                base@
            },
            None => base@,
        },
{
    match variant {
        Some(v) if variant_exists => v,
        _ => base.to_owned(),
    }
}

/// Prefer an orientation-specific scene file next to `base`, else `base` itself.
pub fn orient_scene_path(base: &str, orientation: Orientation) -> (r: String)
    ensures
        r@ == base@ || (variant_of(base@, orientation.name()) matches Some(v) && r@ == v),
{
    let variant = variant_path(base, orientation.tag());
    let exists = match &variant {
        Some(v) => is_file(v.as_str()),
        None => false,
    };
    choose_scene_path(base, variant, exists)
}

/// A scene's background when it names none: opaque black.
pub fn default_background() -> (s: String)
    ensures
        s@ == "#000000"@,
{
    let mut s = String::new();
    push_str(&mut s, "#000000");
    s
}

/// Scanline spacing when a layer names none, in pixels.
pub fn default_period() -> (p: i32)
    ensures
        p == 3,
{
    3
}

} // verus!
