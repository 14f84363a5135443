//! The abstract file tree: files keyed by path with their text, and the set
//! of directories; and what each operation does to it.
use vstd::prelude::*;

use crate::lines::{join_lines, lines_of};
use crate::path::is_ancestor;

verus! {

/// Why an operation on the file tree failed.
#[derive(Clone, Copy, Debug, PartialEq, Eq, Structural)]
pub enum FsError {
    /// The path names nothing, or is empty.
    NotFound,
    /// A file was expected and the path names a directory.
    IsADirectory,
    /// A directory above the path is a file.
    NotADirectory,
    /// The path names neither a file nor a directory.
    InvalidInput,
    /// The path lies outside the directory it was to be made relative to.
    InvalidPath,
}

/// `k` is `p` itself or lies under it.
pub open spec fn is_within(k: Seq<char>, p: Seq<char>) -> bool {
    k == p || is_ancestor(p, k)
}

/// A file tree: the text of each file by path, and the directories.
pub struct FsView {
    pub files: Map<Seq<char>, Seq<char>>,
    pub dirs: Set<Seq<char>>,
}

impl FsView {
    /// No path is both a file and a directory, and every directory above a
    /// file or a directory exists.
    pub open spec fn wf(self) -> bool {
        &&& forall|k: Seq<char>| self.files.contains_key(k) ==> !self.dirs.contains(k)
        &&& forall|a: Seq<char>, k: Seq<char>|
            (self.files.contains_key(k) || self.dirs.contains(k)) && #[trigger] is_ancestor(a, k)
                ==> self.dirs.contains(a)
    }

    /// `p` names a file or a directory.
    pub open spec fn names(self, p: Seq<char>) -> bool {
        self.files.contains_key(p) || self.dirs.contains(p)
    }

    /// Some directory above `p` is a file.
    pub open spec fn has_file_above(self, p: Seq<char>) -> bool {
        exists|a: Seq<char>| #[trigger] is_ancestor(a, p) && self.files.contains_key(a)
    }

    /// The text of the file `p`.
    pub open spec fn read(self, p: Seq<char>) -> Result<Seq<char>, FsError> {
        if self.files.contains_key(p) {
            Ok(self.files[p])
        } else if self.dirs.contains(p) {
            Err(FsError::IsADirectory)
        } else {
            Err(FsError::NotFound)
        }
    }

    /// The lines of the file `p`.
    pub open spec fn read_lines(self, p: Seq<char>) -> Result<Seq<Seq<char>>, FsError> {
        match self.read(p) {
            Ok(c) => Ok(lines_of(c)),
            Err(e) => Err(e),
        }
    }

    /// The tree after the file `p` is made to hold exactly `t`, with every
    /// directory above it created.
    pub open spec fn write(self, p: Seq<char>, t: Seq<char>) -> Result<FsView, FsError> {
        if p.len() == 0 {
            Err(FsError::NotFound)
        } else if self.dirs.contains(p) {
            Err(FsError::IsADirectory)
        } else if self.has_file_above(p) {
            Err(FsError::NotADirectory)
        } else {
            Ok(
                FsView {
                    files: self.files.insert(p, t),
                    dirs: self.dirs.union(Set::new(|a: Seq<char>| is_ancestor(a, p))),
                },
            )
        }
    }

    /// The tree after the file `p` is made to hold the lines `ls`.
    pub open spec fn write_lines(self, p: Seq<char>, ls: Seq<Seq<char>>) -> Result<FsView, FsError> {
        self.write(p, join_lines(ls))
    }

    /// What `p` holds before an append: its text, or nothing when it cannot
    /// be read.
    pub open spec fn text_or_empty(self, p: Seq<char>) -> Seq<char> {
        match self.read(p) {
            Ok(c) => c,
            Err(_) => seq![],
        }
    }

    /// The tree after `t` is added at the end of the file `p`.
    pub open spec fn append(self, p: Seq<char>, t: Seq<char>) -> Result<FsView, FsError> {
        self.write(p, self.text_or_empty(p) + t)
    }

    /// The tree after the lines `ls` are added after those of the file `p`.
    pub open spec fn append_lines(self, p: Seq<char>, ls: Seq<Seq<char>>) -> Result<FsView, FsError> {
        self.write_lines(p, lines_of(self.text_or_empty(p)) + ls)
    }

    /// The tree with `p` and everything under it taken away.
    pub open spec fn without(self, p: Seq<char>) -> FsView {
        FsView {
            files: self.files.restrict(Set::new(|k: Seq<char>| !is_within(k, p))),
            dirs: self.dirs.filter(|k: Seq<char>| !is_within(k, p)),
        }
    }

    /// The tree after the file or directory `p` is deleted.
    pub open spec fn delete(self, p: Seq<char>) -> Result<FsView, FsError> {
        if self.names(p) {
            Ok(self.without(p))
        } else {
            Err(FsError::InvalidInput)
        }
    }

    /// The tree after the text of the file `from` is written to `to`.
    pub open spec fn copy(self, from: Seq<char>, to: Seq<char>) -> Result<FsView, FsError> {
        match self.read(from) {
            Ok(c) => self.write(to, c),
            Err(e) => Err(e),
        }
    }

    /// The tree after `from` is copied to `to` and then deleted.
    pub open spec fn rename(self, from: Seq<char>, to: Seq<char>) -> Result<FsView, FsError> {
        match self.copy(from, to) {
            Ok(v) => v.delete(from),
            Err(e) => Err(e),
        }
    }
}

/// `after` and `r` are what an operation whose outcome is `outcome` leaves:
/// the new tree and `Ok`, or the tree unchanged and the error.
pub open spec fn applied(
    before: FsView,
    after: FsView,
    r: Result<(), FsError>,
    outcome: Result<FsView, FsError>,
) -> bool {
    match outcome {
        Ok(v) => r is Ok && after == v,
        Err(e) => r == Err::<(), FsError>(e) && after == before,
    }
}

} // verus!
