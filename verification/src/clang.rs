//! An entry of a JSON compilation database, as clang tools read it.

use vstd::prelude::*;
use std::path::PathBuf;
use crate::paths::path_bytes;

verus! {

/// One entry of the compilation database: the paths of the file, of its directory
/// and of the output, and the command line as text.
#[derive(Debug, PartialEq, Eq)]
pub struct Entry {
    pub file: PathBuf,
    pub directory: PathBuf,
    pub output: Option<PathBuf>,
    pub arguments: Vec<String>,
}

/// The mathematical value of an entry.
pub ghost struct EntryView {
    pub file: Seq<u8>,
    pub directory: Seq<u8>,
    pub output: Option<Seq<u8>>,
    pub arguments: Seq<Seq<char>>,
}

/// The bytes of an optional path.
pub open spec fn optional_path(path: Option<PathBuf>) -> Option<Seq<u8>> {
    match path {
        Some(p) => Some(path_bytes(p)),
        None => None,
    }
}

impl View for Entry {
    type V = EntryView;

    open spec fn view(&self) -> EntryView {
        EntryView {
            file: path_bytes(self.file),
            directory: path_bytes(self.directory),
            output: optional_path(self.output),
            arguments: self.arguments.deep_view(),
        }
    }
}

} // verus!
