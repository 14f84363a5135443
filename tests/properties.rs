use file_access::{
    append_lines, append_string, copy, delete, join_with_newlines, read_lines, read_string,
    relative_to, rename, split_lines, write_lines, write_string, AsFile, FilePath, FileSystem,
    FsError, ToVecString,
};

fn owned(v: &[&str]) -> Vec<String> {
    v.iter().map(|s| s.to_string()).collect()
}

#[test]
fn written_text_reads_back() -> Result<(), FsError> {
    let mut fs = FileSystem::new();
    let text = "line one\r\nline two\n\u{e9}t\u{e9}\n";
    write_string(&mut fs, &"notes/today.txt", &text)?;
    assert_eq!(read_string(&fs, &"notes/today.txt")?, text);
    Ok(())
}

#[test]
fn overwrite_replaces_text() -> Result<(), FsError> {
    let mut fs = FileSystem::new();
    write_string(&mut fs, &"f.txt", &"a long first text")?;
    write_string(&mut fs, &"f.txt", &"short")?;
    assert_eq!(read_string(&fs, &"f.txt")?, "short");
    Ok(())
}

#[test]
fn written_lines_read_back() -> Result<(), FsError> {
    let mut fs = FileSystem::new();
    let lines = owned(&["a", "", "b", "c"]);
    write_lines(&mut fs, &"l.txt", &lines)?;
    assert_eq!(read_string(&fs, &"l.txt")?, "a\n\nb\nc");
    assert_eq!(read_lines(&fs, &"l.txt")?, lines);
    Ok(())
}

#[test]
fn trailing_empty_line_is_not_read_back() -> Result<(), FsError> {
    let mut fs = FileSystem::new();
    write_lines(&mut fs, &"l.txt", &owned(&["a", ""]))?;
    assert_eq!(read_lines(&fs, &"l.txt")?, vec!["a"]);
    Ok(())
}

#[test]
fn append_after_write_concatenates() -> Result<(), FsError> {
    let mut fs = FileSystem::new();
    write_string(&mut fs, &"p.txt", &"a")?;
    append_string(&mut fs, &"p.txt", &"b")?;
    assert_eq!(read_string(&fs, &"p.txt")?, "ab");
    Ok(())
}

#[test]
fn append_to_missing_file_creates_it() -> Result<(), FsError> {
    let mut fs = FileSystem::new();
    append_string(&mut fs, &"dir/new.txt", &"first")?;
    assert_eq!(read_string(&fs, &"dir/new.txt")?, "first");
    append_lines(&mut fs, &"dir/other.txt", &owned(&["x", "y"]))?;
    assert_eq!(read_string(&fs, &"dir/other.txt")?, "x\ny");
    Ok(())
}

#[test]
fn append_lines_after_write_lines() -> Result<(), FsError> {
    let mut fs = FileSystem::new();
    write_lines(&mut fs, &"p.txt", &owned(&["1", "2"]))?;
    append_lines(&mut fs, &"p.txt", &owned(&["3", "4"]))?;
    assert_eq!(read_lines(&fs, &"p.txt")?, vec!["1", "2", "3", "4"]);
    assert_eq!(read_string(&fs, &"p.txt")?, "1\n2\n3\n4");
    Ok(())
}

#[test]
fn write_creates_missing_directories() -> Result<(), FsError> {
    let mut fs = FileSystem::new();
    assert!(!fs.path_exists(&"new_dir"));
    write_string(&mut fs, &"new_dir/sub/file.txt", &"T")?;
    assert!(fs.is_dir(&"new_dir"));
    assert!(fs.is_dir(&"new_dir/sub"));
    assert!(fs.is_file(&"new_dir/sub/file.txt"));
    assert_eq!(read_string(&fs, &"new_dir/sub/file.txt")?, "T");
    Ok(())
}

#[test]
fn delete_missing_path_fails() {
    let mut fs = FileSystem::new();
    assert_eq!(delete(&mut fs, &"never/was.txt"), Err(FsError::InvalidInput));
    assert_eq!("never".as_file().delete(&mut fs), Err(FsError::InvalidInput));
}

#[test]
fn delete_directory_removes_everything_under_it() -> Result<(), FsError> {
    let mut fs = FileSystem::new();
    write_string(&mut fs, &"top/a.txt", &"a")?;
    write_string(&mut fs, &"top/sub/b.txt", &"b")?;
    write_string(&mut fs, &"topmost.txt", &"c")?;
    delete(&mut fs, &"top")?;
    assert!(!fs.path_exists(&"top"));
    assert!(!fs.path_exists(&"top/a.txt"));
    assert!(!fs.path_exists(&"top/sub"));
    assert!(!fs.path_exists(&"top/sub/b.txt"));
    assert_eq!(read_string(&fs, &"topmost.txt")?, "c");
    Ok(())
}

#[test]
fn copy_is_independent_of_source() -> Result<(), FsError> {
    let mut fs = FileSystem::new();
    write_string(&mut fs, &"a.txt", &"first text")?;
    copy(&mut fs, &"a.txt", &"b.txt")?;
    write_string(&mut fs, &"a.txt", &"other")?;
    assert_eq!(read_string(&fs, &"b.txt")?, "first text");
    assert_eq!(read_string(&fs, &"a.txt")?, "other");
    Ok(())
}

#[test]
fn rename_removes_source() -> Result<(), FsError> {
    let mut fs = FileSystem::new();
    write_string(&mut fs, &"a.txt", &"moved text")?;
    rename(&mut fs, &"a.txt", &"sub/b.txt")?;
    assert!(!fs.path_exists(&"a.txt"));
    assert_eq!(read_string(&fs, &"sub/b.txt")?, "moved text");
    Ok(())
}

#[test]
fn documented_session() -> Result<(), FsError> {
    let mut fs = FileSystem::new();
    "file.1".as_file().write_string(&mut fs, &"Hello, World!")?;
    let file = "file.1".as_file();
    file.append_lines(&mut fs, &vec!["hello", "world"].to_vec_string())?;
    assert_eq!(file.read_string(&fs)?, "Hello, World!\nhello\nworld");
    file.copy_to(&mut fs, &"file.2")?;
    assert_eq!(read_string(&fs, &"file.2")?, "Hello, World!\nhello\nworld");
    "file.2".as_file().rename_to(&mut fs, &"file.1")?;
    assert!(!fs.path_exists(&"file.2"));
    assert_eq!(read_string(&fs, &"file.1")?, "Hello, World!\nhello\nworld");
    "file.1".as_file().delete(&mut fs)?;
    assert!(!fs.path_exists(&"file.1"));
    Ok(())
}

#[test]
fn split_lines_follows_line_endings() {
    assert_eq!(split_lines(""), Vec::<String>::new());
    assert_eq!(split_lines("a"), vec!["a"]);
    assert_eq!(split_lines("a\n"), vec!["a"]);
    assert_eq!(split_lines("a\r\nb"), vec!["a", "b"]);
    assert_eq!(split_lines("a\r"), vec!["a\r"]);
    assert_eq!(split_lines("a\rb\n"), vec!["a\rb"]);
    assert_eq!(split_lines("\n\n"), vec!["", ""]);
    assert_eq!(split_lines("x\n\ny\r\n"), vec!["x", "", "y"]);
}

#[test]
fn join_puts_newlines_between() {
    assert_eq!(join_with_newlines(&Vec::new()), "");
    assert_eq!(join_with_newlines(&owned(&["a"])), "a");
    assert_eq!(join_with_newlines(&owned(&["a", "", "b"])), "a\n\nb");
}

#[test]
fn owned_lines_convert_to_owned_lines() {
    let lines = owned(&["x", "", "y z"]);
    assert_eq!(lines.to_vec_string(), lines);
    assert_eq!(Vec::<String>::new().to_vec_string(), Vec::<String>::new());
}

#[test]
fn reading_reports_errors() {
    let mut fs = FileSystem::new();
    assert_eq!(read_string(&fs, &"missing.txt"), Err(FsError::NotFound));
    assert_eq!(read_lines(&fs, &"missing.txt"), Err(FsError::NotFound));
    write_string(&mut fs, &"d/f.txt", &"x").unwrap();
    assert_eq!(read_string(&fs, &"d"), Err(FsError::IsADirectory));
    assert_eq!(copy(&mut fs, &"missing.txt", &"t.txt"), Err(FsError::NotFound));
    assert_eq!(rename(&mut fs, &"d", &"t.txt"), Err(FsError::IsADirectory));
    assert!(!fs.path_exists(&"t.txt"));
}

#[test]
fn writing_reports_errors() {
    let mut fs = FileSystem::new();
    write_string(&mut fs, &"d/f.txt", &"x").unwrap();
    assert_eq!(write_string(&mut fs, &"", &"x"), Err(FsError::NotFound));
    assert_eq!(write_string(&mut fs, &"d", &"x"), Err(FsError::IsADirectory));
    assert_eq!(write_string(&mut fs, &"d/f.txt/g.txt", &"x"), Err(FsError::NotADirectory));
    assert_eq!(append_string(&mut fs, &"d", &"x"), Err(FsError::IsADirectory));
    assert!(!fs.path_exists(&"d/f.txt/g.txt"));
    assert_eq!(read_string(&fs, &"d/f.txt"), Ok("x".to_string()));
}

#[test]
fn relative_paths() {
    assert_eq!(relative_to("/home/u/p/x.txt", "/home/u/p"), Some("x.txt".to_string()));
    assert_eq!(relative_to("/home/u/p", "/home/u/p"), Some(String::new()));
    assert_eq!(relative_to("/a", "/"), Some("a".to_string()));
    assert_eq!(relative_to("/ab", "/a"), None);
    assert_eq!(relative_to("/b/c", "/a"), None);
    let file = FilePath::access(&"/work/src/lib.rs");
    assert_eq!(file.relative_to(&"/work"), Ok("src/lib.rs".to_string()));
    assert_eq!(file.relative_to(&"/other"), Err(FsError::InvalidPath));
    assert_eq!(file.as_str(), "/work/src/lib.rs");
}
