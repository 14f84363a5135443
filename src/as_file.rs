//! Turning a path written as text into a file handle.
use vstd::prelude::*;

use crate::file_path::FilePath;

verus! {

/// A value that names a file.
pub trait AsFile {
    /// The path that the value names.
    spec fn path_text(&self) -> Seq<char>;

    /// A handle on the file; nothing is checked.
    fn as_file(&self) -> (r: FilePath)
        ensures
            r@ == self.path_text(),
    ;
}

impl AsFile for str {
    open spec fn path_text(&self) -> Seq<char> {
        self@
    }

    fn as_file(&self) -> (r: FilePath) {
        FilePath::access(self)
    }
}

impl AsFile for String {
    open spec fn path_text(&self) -> Seq<char> {
        self@
    }

    fn as_file(&self) -> (r: FilePath) {
        FilePath::access(self.as_str())
    }
}

} // verus!
