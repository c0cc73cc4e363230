//! Paths as text.

use vstd::prelude::*;
use std::path::{Path, PathBuf};

verus! {

/// `std::path::Path`, a path of the file system. Nothing inside it is seen
/// here.
#[verifier::external_type_specification]
#[verifier::external_body]
pub struct ExPath(Path);

/// `std::path::PathBuf`, an owned path. Nothing inside it is seen here.
#[verifier::external_type_specification]
#[verifier::external_body]
pub struct ExPathBuf(PathBuf);

/// Calls `Path::to_str` of std and copies the text: `None` where the path
/// is not valid Unicode. Nothing is claimed of the text.
#[verifier::external_body]
fn path_text(path: &Path) -> (res: Option<String>) {
    path.to_str().map(String::from)
}

/// Calls `PathBuf::from` of std on the text. Nothing is claimed of the
/// path.
#[verifier::external_body]
pub(crate) fn path_from(text: &String) -> (res: PathBuf) {
    PathBuf::from(text)
}

/// What `path_as_string` makes of the text of a path.
pub open spec fn spec_text_result(text: Option<String>) -> Result<String, Seq<char>> {
    match text {
        Some(formatted) => Ok(formatted),
        None => Err("could not get path as string."@),
    }
}

/// Judges the text that a path gave: the text itself, or the error where
/// there was none.
pub fn text_result(text: Option<String>) -> (res: Result<String, String>)
    ensures
        match spec_text_result(text) {
            Ok(formatted) => res == Ok::<String, String>(formatted),
            Err(message) => res is Err && res->Err_0@ == message,
        },
{
    match text {
        Some(formatted) => Ok(formatted),
        None => Err("could not get path as string.".to_owned()),
    }
}

/// Turns a path into a string. Fails where the path is not valid Unicode;
/// which paths are is for std to say.
pub fn path_as_string(path: &Path) -> (res: Result<String, String>)
    ensures
        res matches Err(message) ==> message@ == "could not get path as string."@,
{
    text_result(path_text(path))
}

} // verus!
