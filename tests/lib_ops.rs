use file_access::{
    append_lines, append_string, copy, delete, read_lines, read_string, rename, write_lines,
    write_string, FileSystem, FsError, ToVecString,
};

fn with_cargo_toml() -> Result<FileSystem, FsError> {
    let mut fs = FileSystem::new();
    write_string(
        &mut fs,
        &"Cargo.toml",
        &"[package]\nname = \"file_access\"\nversion = \"0.1.0\"\n",
    )?;
    Ok(fs)
}

#[test]
fn lib_read_string() -> Result<(), FsError> {
    let fs = with_cargo_toml()?;
    let file = "Cargo.toml";
    let text = read_string(&fs, &file)?;
    println!("{text}");
    assert_ne!(text.len(), 0);
    Ok(())
}

#[test]
fn lib_read_lines() -> Result<(), FsError> {
    let fs = with_cargo_toml()?;
    let file = "Cargo.toml";
    let lines = read_lines(&fs, &file)?;
    for line in &lines {
        println!("{line}");
    }
    assert_ne!(lines.len(), 0);
    Ok(())
}

#[test]
fn lib_write_string() -> Result<(), FsError> {
    let mut fs = FileSystem::new();
    let file = "write_string/file_access.txt";
    let text = "Hello, World!";
    write_string(&mut fs, &file, &text)?;
    assert_eq!(read_string(&fs, &file)?, text);
    delete(&mut fs, &"write_string")?;
    Ok(())
}

#[test]
fn lib_write_lines() -> Result<(), FsError> {
    let mut fs = FileSystem::new();
    let file = "write_lines/file_access.txt";
    let lines = "Hello, World!"
        .split_whitespace()
        .map(ToString::to_string)
        .collect();
    write_lines(&mut fs, &file, &lines)?;
    assert_eq!(read_lines(&fs, &file)?, lines);
    delete(&mut fs, &"write_lines")?;
    Ok(())
}

#[test]
fn lib_append_string() -> Result<(), FsError> {
    let mut fs = FileSystem::new();
    let file = "append_string/file_access.txt";
    let text = "Hello, World!";
    write_string(&mut fs, &file, &text)?;
    append_string(&mut fs, &file, &text)?;
    assert_eq!(read_string(&fs, &file)?, format!("{text}{text}"));
    delete(&mut fs, &"append_string")?;
    Ok(())
}

#[test]
fn lib_append_lines() -> Result<(), FsError> {
    let mut fs = FileSystem::new();
    let file = "append_lines/file_access.txt";
    let lines1 = vec!["1", "2"].to_vec_string();
    write_lines(&mut fs, &file, &lines1)?;
    let lines2 = vec!["3", "4"].to_vec_string();
    append_lines(&mut fs, &file, &lines2)?;
    assert_eq!(read_lines(&fs, &file)?, vec!["1", "2", "3", "4"]);
    delete(&mut fs, &"append_lines")?;
    Ok(())
}

#[test]
fn lib_delete() -> Result<(), FsError> {
    let mut fs = FileSystem::new();
    let file = "delete/file_access.txt";
    write_string(&mut fs, &file, &"")?;
    delete(&mut fs, &file)?;
    assert!(!fs.path_exists(&file), "{file} should no longer exist");
    delete(&mut fs, &"delete")?;
    Ok(())
}

#[test]
fn lib_copy() -> Result<(), FsError> {
    let mut fs = FileSystem::new();
    let from = "copy_from/file_access.txt";
    let to = "copy_to/file_access.txt";
    write_string(&mut fs, &from, &"Hello, World!")?;
    copy(&mut fs, &from, &to)?;
    assert_eq!(
        read_string(&fs, &from)?,
        read_string(&fs, &to)?,
        "{from} and {to} should contain the same text"
    );
    delete(&mut fs, &"copy_from")?;
    delete(&mut fs, &"copy_to")?;
    Ok(())
}

#[test]
fn lib_rename() -> Result<(), FsError> {
    let mut fs = FileSystem::new();
    let from = "rename_from/file_access.txt";
    let to = "rename_to/file_access.txt";
    let text = "Hello, World!";
    write_string(&mut fs, &from, &text)?;
    rename(&mut fs, &from, &to)?;
    assert!(!fs.path_exists(&from), "{from} should no longer exist");
    assert_eq!(read_string(&fs, &to)?, text, "{to} should contain: {text}");
    delete(&mut fs, &"rename_from")?;
    delete(&mut fs, &"rename_to")?;
    Ok(())
}
