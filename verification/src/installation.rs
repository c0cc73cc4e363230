//! The folder in which a project keeps its files.

use vstd::prelude::*;
use std::path::PathBuf;
use crate::file::path_from;

verus! {

/// A project's place under the user's application data: its title, and the
/// folder once it is known to exist.
pub struct Installation {
    title: String,
    path: Option<String>,
}

impl Installation {
    /// The title: the name of the project's folder.
    pub closed spec fn spec_title(&self) -> Seq<char> {
        self.title@
    }

    /// The folder, as text, once there is one.
    pub closed spec fn spec_path(&self) -> Option<Seq<char>> {
        match self.path {
            Some(path) => Some(path@),
            None => None,
        }
    }

    /// An installation without a folder yet.
    pub fn new(title: &str) -> (res: Installation)
        ensures
            res.spec_title() == title@,
            res.spec_path() is None,
    {
        Installation { title: title.to_owned(), path: None }
    }

    /// The title.
    pub fn title(&self) -> (res: &String)
        ensures
            res@ == self.spec_title(),
    {
        &self.title
    }

    /// Records the folder, once it was made.
    pub fn set_path(&mut self, path: String)
        ensures
            final(self).spec_title() == old(self).spec_title(),
            final(self).spec_path() == Some(path@),
    {
        self.path = Some(path);
    }

    /// The folder as text, or the error where there is none yet.
    pub fn path_text(&self) -> (res: Result<&String, String>)
        ensures
            match self.spec_path() {
                Some(path) => res is Ok && res->Ok_0@ == path,
                None => res is Err && res->Err_0@ == "No installation path."@,
            },
    {
        match &self.path {
            Some(path) => Ok(path),
            None => Err("No installation path.".to_owned()),
        }
    }

    /// The path of the installation. Fails where no folder was made yet.
    pub fn path(&self) -> (res: Result<PathBuf, String>)
        ensures
            res is Ok <==> self.spec_path() is Some,
            res matches Err(message) ==> message@ == "No installation path."@,
    {
        match self.path_text() {
            Ok(path) => Ok(path_from(path)),
            Err(message) => Err(message),
        }
    }
}

} // verus!
