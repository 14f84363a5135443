//! Whole-file text operations over an in-memory file tree: read, write and
//! append a file as one string or as a list of lines, copy, rename and delete,
//! with missing parent directories created on write.
use vstd::prelude::*;

pub mod as_file;
pub mod file_path;
pub mod laws;
pub mod lines;
pub mod model;
pub mod path;
pub mod store;

pub use as_file::AsFile;
pub use file_path::FilePath;
pub use lines::{join_with_newlines, split_lines, ToVecString};
pub use model::{FsError, FsView};
pub use path::relative_to;
pub use store::FileSystem;

use lines::{lines_of, views};
use model::applied;

verus! {

/// The view of a text result.
pub open spec fn text_result(r: Result<String, FsError>) -> Result<Seq<char>, FsError> {
    match r {
        Ok(s) => Ok(s@),
        Err(e) => Err(e),
    }
}

/// The view of a result that holds lines.
pub open spec fn lines_result(r: Result<Vec<String>, FsError>) -> Result<Seq<Seq<char>>, FsError> {
    match r {
        Ok(v) => Ok(views(v@)),
        Err(e) => Err(e),
    }
}

/// Reads the whole text of the file `file_path`.
pub fn read_string(fs: &FileSystem, file_path: &str) -> (r: Result<String, FsError>)
    requires
        fs.inv(),
    ensures
        text_result(r) == fs@.read(file_path@),
{
    match fs.file_text(file_path) {
        Some(t) => Ok(t),
        None => {
            if fs.is_dir(file_path) {
                Err(FsError::IsADirectory)
            } else {
                Err(FsError::NotFound)
            }
        },
    }
}

/// Reads the file `file_path` as a list of lines.
pub fn read_lines(fs: &FileSystem, file_path: &str) -> (r: Result<Vec<String>, FsError>)
    requires
        fs.inv(),
    ensures
        lines_result(r) == fs@.read_lines(file_path@),
{
    match read_string(fs, file_path) {
        Ok(t) => Ok(split_lines(t.as_str())),
        Err(e) => Err(e),
    }
}

/// Makes the file `file_path` hold exactly `text`, creating the directories
/// above it that are missing.
pub fn write_string(fs: &mut FileSystem, file_path: &str, text: &str) -> (r: Result<(), FsError>)
    requires
        old(fs).inv(),
    ensures
        final(fs).inv(),
        applied(old(fs)@, final(fs)@, r, old(fs)@.write(file_path@, text@)),
{
    if file_path.unicode_len() == 0 {
        return Err(FsError::NotFound);
    }
    if fs.is_dir(file_path) {
        return Err(FsError::IsADirectory);
    }
    if fs.has_file_above(file_path) {
        return Err(FsError::NotADirectory);
    }
    let ghost start = fs@;
    fs.create_ancestors(file_path);
    fs.put_file(file_path, text.to_owned());
    proof {
        let goal = start.write(file_path@, text@)->Ok_0;
        assert(fs@.dirs =~= goal.dirs);
    }
    Ok(())
}

/// Makes the file `file_path` hold `lines`, joined with `'\n'`.
pub fn write_lines(fs: &mut FileSystem, file_path: &str, lines: &Vec<String>) -> (r: Result<(), FsError>)
    requires
        old(fs).inv(),
    ensures
        final(fs).inv(),
        applied(old(fs)@, final(fs)@, r, old(fs)@.write_lines(file_path@, views(lines@))),
{
    write_string(fs, file_path, join_with_newlines(lines).as_str())
}

/// Adds `text` at the end of the file `file_path`; a file that cannot be
/// read is written anew.
pub fn append_string(fs: &mut FileSystem, file_path: &str, text: &str) -> (r: Result<(), FsError>)
    requires
        old(fs).inv(),
    ensures
        final(fs).inv(),
        applied(old(fs)@, final(fs)@, r, old(fs)@.append(file_path@, text@)),
{
    let combined = match read_string(fs, file_path) {
        Ok(current) => {
            let mut current = current;
            current.append(text);
            current
        },
        Err(_) => {
            proof {
                assert(seq![] + text@ =~= text@);
            }
            text.to_owned()
        },
    };
    write_string(fs, file_path, combined.as_str())
}

/// Adds `lines` after the lines of the file `file_path`; a file that cannot
/// be read is written anew.
pub fn append_lines(fs: &mut FileSystem, file_path: &str, lines: &Vec<String>) -> (r: Result<(), FsError>)
    requires
        old(fs).inv(),
    ensures
        final(fs).inv(),
        applied(
            old(fs)@,
            final(fs)@,
            r,
            old(fs)@.append_lines(file_path@, views(lines@)),
        ),
{
    let mut all = match read_lines(fs, file_path) {
        Ok(current) => current,
        Err(_) => Vec::new(),
    };
    let ghost first = views(all@);
    proof {
        assert(first == lines_of(fs@.text_or_empty(file_path@)));
    }
    let mut i: usize = 0;
    while i < lines.len()
        invariant
            i <= lines@.len(),
            views(all@) == first + views(lines@.take(i as int)),
        decreases lines@.len() - i,
    {
        let ghost before = all@;
        all.push(lines[i].clone());
        proof {
            assert(lines@.take(i as int + 1) =~= lines@.take(i as int).push(lines@[i as int]));
            assert(views(all@) =~= views(before).push(lines@[i as int]@));
            assert(views(lines@.take(i as int + 1)) =~= views(lines@.take(i as int)).push(lines@[i as int]@));
        }
        i = i + 1;
    }
    proof {
        assert(lines@.take(i as int) =~= lines@);
    }
    write_lines(fs, file_path, &all)
}

/// Deletes the file or the directory `file_path`, a directory with
/// everything under it.
pub fn delete(fs: &mut FileSystem, file_path: &str) -> (r: Result<(), FsError>)
    requires
        old(fs).inv(),
    ensures
        final(fs).inv(),
        applied(old(fs)@, final(fs)@, r, old(fs)@.delete(file_path@)),
{
    if fs.path_exists(file_path) {
        fs.remove_tree(file_path);
        Ok(())
    } else {
        Err(FsError::InvalidInput)
    }
}

/// Writes the text of the file `from` to the file `to`.
pub fn copy(fs: &mut FileSystem, from: &str, to: &str) -> (r: Result<(), FsError>)
    requires
        old(fs).inv(),
    ensures
        final(fs).inv(),
        applied(old(fs)@, final(fs)@, r, old(fs)@.copy(from@, to@)),
{
    match read_string(fs, from) {
        Ok(text) => write_string(fs, to, text.as_str()),
        Err(e) => Err(e),
    }
}

/// Copies the file `from` to `to`, then deletes `from`.
pub fn rename(fs: &mut FileSystem, from: &str, to: &str) -> (r: Result<(), FsError>)
    requires
        old(fs).inv(),
    ensures
        final(fs).inv(),
        applied(old(fs)@, final(fs)@, r, old(fs)@.rename(from@, to@)),
{
    let ghost start = fs@;
    match copy(fs, from, to) {
        Ok(()) => {
            proof {
                assert(start.files.contains_key(from@));
                assert(fs@.files.contains_key(from@));
            }
            delete(fs, from)
        },
        Err(e) => Err(e),
    }
}

} // verus!
