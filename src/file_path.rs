//! A handle that names one file and forwards each operation to the
//! whole-file functions.
use vstd::prelude::*;

use crate::lines::views;
use crate::model::{applied, FsError};
use crate::path::relative_path;
use crate::store::FileSystem;
use crate::{lines_result, text_result};

verus! {

/// One path, owned; no file is held open.
pub struct FilePath {
    get_path: String,
}

impl View for FilePath {
    type V = Seq<char>;

    closed spec fn view(&self) -> Seq<char> {
        self.get_path@
    }
}

impl FilePath {
    /// A handle on `file_path`; nothing is checked.
    pub fn access(file_path: &str) -> (r: Self)
        ensures
            r@ == file_path@,
    {
        FilePath { get_path: file_path.to_owned() }
    }

    /// The path as text.
    pub fn as_str(&self) -> (r: &str)
        ensures
            r@ == self@,
    {
        self.get_path.as_str()
    }

    /// This path made relative to the directory `base`; `InvalidPath` when
    /// it does not lie inside `base`.
    pub fn relative_to(&self, base: &str) -> (r: Result<String, FsError>)
        ensures
            match relative_path(self@, base@) {
                Some(s) => r matches Ok(t) && t@ == s,
                None => r == Err::<String, FsError>(FsError::InvalidPath),
            },
    {
        match crate::path::relative_to(self.as_str(), base) {
            Some(s) => Ok(s),
            None => Err(FsError::InvalidPath),
        }
    }

    /// Reads the whole text of the file.
    pub fn read_string(&self, fs: &FileSystem) -> (r: Result<String, FsError>)
        requires
            fs.inv(),
        ensures
            text_result(r) == fs@.read(self@),
    {
        crate::read_string(fs, self.as_str())
    }

    /// Reads the file as a list of lines.
    pub fn read_lines(&self, fs: &FileSystem) -> (r: Result<Vec<String>, FsError>)
        requires
            fs.inv(),
        ensures
            lines_result(r) == fs@.read_lines(self@),
    {
        crate::read_lines(fs, self.as_str())
    }

    /// Makes the file hold exactly `text`.
    pub fn write_string(&self, fs: &mut FileSystem, text: &str) -> (r: Result<(), FsError>)
        requires
            old(fs).inv(),
        ensures
            final(fs).inv(),
            applied(old(fs)@, final(fs)@, r, old(fs)@.write(self@, text@)),
    {
        crate::write_string(fs, self.as_str(), text)
    }

    /// Makes the file hold `lines`, joined with `'\n'`.
    pub fn write_lines(&self, fs: &mut FileSystem, lines: &Vec<String>) -> (r: Result<(), FsError>)
        requires
            old(fs).inv(),
        ensures
            final(fs).inv(),
            applied(old(fs)@, final(fs)@, r, old(fs)@.write_lines(self@, views(lines@))),
    {
        crate::write_lines(fs, self.as_str(), lines)
    }

    /// Adds `text` at the end of the file.
    pub fn append_string(&self, fs: &mut FileSystem, text: &str) -> (r: Result<(), FsError>)
        requires
            old(fs).inv(),
        ensures
            final(fs).inv(),
            applied(old(fs)@, final(fs)@, r, old(fs)@.append(self@, text@)),
    {
        crate::append_string(fs, self.as_str(), text)
    }

    /// Adds `lines` after the lines of the file.
    pub fn append_lines(&self, fs: &mut FileSystem, lines: &Vec<String>) -> (r: Result<(), FsError>)
        requires
            old(fs).inv(),
        ensures
            final(fs).inv(),
            applied(old(fs)@, final(fs)@, r, old(fs)@.append_lines(self@, views(lines@))),
    {
        crate::append_lines(fs, self.as_str(), lines)
    }

    /// Deletes the file, or the directory with everything under it.
    pub fn delete(&self, fs: &mut FileSystem) -> (r: Result<(), FsError>)
        requires
            old(fs).inv(),
        ensures
            final(fs).inv(),
            applied(old(fs)@, final(fs)@, r, old(fs)@.delete(self@)),
    {
        crate::delete(fs, self.as_str())
    }

    /// Writes the text of the file to `to`.
    pub fn copy_to(&self, fs: &mut FileSystem, to: &str) -> (r: Result<(), FsError>)
        requires
            old(fs).inv(),
        ensures
            final(fs).inv(),
            applied(old(fs)@, final(fs)@, r, old(fs)@.copy(self@, to@)),
    {
        crate::copy(fs, self.as_str(), to)
    }

    /// Copies the file to `to`, then deletes it.
    pub fn rename_to(&self, fs: &mut FileSystem, to: &str) -> (r: Result<(), FsError>)
        requires
            old(fs).inv(),
        ensures
            final(fs).inv(),
            applied(old(fs)@, final(fs)@, r, old(fs)@.rename(self@, to@)),
    {
        crate::rename(fs, self.as_str(), to)
    }
}

} // verus!
