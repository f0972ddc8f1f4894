use std::path::PathBuf;
use ty_resolver::backend::{require_ty, ty_command, ty_file_name};

#[test]
fn the_file_name_depends_on_the_system() {
    assert_eq!(ty_file_name(true), "ty.exe");
    assert_eq!(ty_file_name(false), "ty");
}

#[test]
fn a_program_beside_this_one_is_preferred() {
    let sibling = PathBuf::from("/opt/tools/ty");
    assert_eq!(ty_command(Some(sibling.clone()), true), sibling);
    assert_eq!(ty_command(Some(sibling), false), PathBuf::from("ty"));
    assert_eq!(ty_command(None, true), PathBuf::from("ty"));
    assert_eq!(ty_command(None, false), PathBuf::from("ty"));
}

#[test]
fn a_missing_backend_is_reported() {
    let message = "the `ty` type-inference backend is required but was not found; install it with `uv tool install ty`";
    assert_eq!(require_ty(Some(true)), Ok(()));
    assert_eq!(require_ty(Some(false)), Err(message.to_owned()));
    assert_eq!(require_ty(None), Err(message.to_owned()));
}
