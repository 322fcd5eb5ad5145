//! How the program was launched.
use crate::text;
use vstd::prelude::*;

verus! {

/// Whether the program was opened as an app bundle: without arguments, from an
/// executable inside one. `executable` is the executable's path, where it is
/// known.
pub fn is_app_bundle_launch(has_arguments: bool, executable: Option<String>) -> (r: bool)
    ensures
        r == (!has_arguments && match executable {
            Some(path) => text::has_text(path@, ".app/Contents/MacOS/"@),
            None => false,
        }),
{
    if has_arguments {
        return false;
    }
    match executable {
        Some(path) => text::contains(path.as_str(), ".app/Contents/MacOS/"),
        None => false,
    }
}

}
