//! Finding the `ty` program.

use crate::uri::{path_from, path_of};
use std::path::PathBuf;
use vstd::prelude::*;

verus! {

/// The file name of the `ty` program.
pub open spec fn ty_name(windows: bool) -> Seq<char> {
    if windows {
        "ty.exe"@
    } else {
        "ty"@
    }
}

/// The file name of the `ty` program on Windows, and on other systems.
pub fn ty_file_name(windows: bool) -> (name: &'static str)
    ensures
        name@ == ty_name(windows),
{
    if windows {
        "ty.exe"
    } else {
        "ty"
    }
}

/// The program to run. `sibling` is the path of the `ty` program in the directory of this
/// program, if that directory is known, and `is_file` says whether there is such a file; without
/// one, `ty` is looked up by its name.
pub fn ty_command(sibling: Option<PathBuf>, is_file: bool) -> (program: PathBuf)
    ensures
        program == match sibling {
            Some(path) => if is_file {
                path
            } else {
                path_of("ty"@)
            },
            None => path_of("ty"@),
        },
{
    match sibling {
        Some(path) => if is_file {
            path
        } else {
            path_from("ty".to_owned())
        },
        None => path_from("ty".to_owned()),
    }
}

/// The message for a missing `ty` program.
pub open spec fn missing_ty() -> Seq<char> {
    "the `ty` type-inference backend is required but was not found; install it with `uv tool install ty`"@
}

/// Whether `ty` is there. `succeeded` says whether `ty version` ended well, and is nothing where
/// it could not be run.
pub fn require_ty(succeeded: Option<bool>) -> (found: Result<(), String>)
    ensures
        found is Ok <==> succeeded == Some(true),
        found matches Err(message) ==> message@ == missing_ty(),
{
    match succeeded {
        Some(true) => Ok(()),
        _ => Err(
            "the `ty` type-inference backend is required but was not found; install it with `uv tool install ty`".to_owned(),
        ),
    }
}

}
