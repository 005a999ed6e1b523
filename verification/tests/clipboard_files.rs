use purple::clipboard_files::{read, strip_prefix, ClipboardError};

fn strings(items: &[&str]) -> Vec<String> {
    items.iter().map(|s| s.to_string()).collect()
}

#[test]
fn read_of_empty_clipboard_is_no_files() {
    match read(Vec::new()) {
        Err(ClipboardError::NoFiles) => {}
        other => panic!("expected NoFiles, got {:?}", other),
    }
}

#[test]
fn read_strips_the_scheme_and_skips_other_uris() {
    let uris = strings(&["file:///home/a.txt", "https://example.org/x", "file:///tmp/b c.png"]);
    let paths = read(uris).unwrap();
    assert_eq!(paths, strings(&["/home/a.txt", "/tmp/b c.png"]));
}

#[test]
fn read_of_foreign_uris_only_is_an_empty_list() {
    let paths = read(strings(&["https://example.org/x"])).unwrap();
    assert!(paths.is_empty());
}

#[test]
fn read_keeps_non_ascii_paths() {
    let paths = read(strings(&["file:///home/zoë/ñ.txt", "file://"])).unwrap();
    assert_eq!(paths, strings(&["/home/zoë/ñ.txt", ""]));
}

#[test]
fn write_joins_uris_with_crlf() {
    assert_eq!(purple::clipboard_files::write(&Vec::new()), "");
    assert_eq!(purple::clipboard_files::write(&strings(&["/a"])), "file:///a");
    assert_eq!(
        purple::clipboard_files::write(&strings(&["/a", "/b/c d", "é"])),
        "file:///a\r\nfile:///b/c d\r\nfile://é"
    );
}

#[test]
fn write_then_read_gives_the_paths_back() {
    let paths = strings(&["/home/a.txt", "/tmp/b.png"]);
    let uris: Vec<String> = purple::clipboard_files::write(&paths).split("\r\n").map(|s| s.to_string()).collect();
    assert_eq!(read(uris).unwrap(), paths);
}

#[test]
fn strip_prefix_removes_one_leading_scheme() {
    assert_eq!(strip_prefix("file:///Users/a/b.txt".to_string()), "/Users/a/b.txt");
    assert_eq!(strip_prefix("/Users/a/b.txt".to_string()), "/Users/a/b.txt");
    assert_eq!(strip_prefix("file://file://x".to_string()), "file://x");
    assert_eq!(strip_prefix("file:/".to_string()), "file:/");
    assert_eq!(strip_prefix("".to_string()), "");
    assert_eq!(strip_prefix("xfile://a".to_string()), "xfile://a");
}

#[test]
fn error_messages() {
    assert_eq!(ClipboardError::NoFiles.message(), "No file paths in the clipboard");
    assert_eq!(
        ClipboardError::SystemError("denied".to_string()).message(),
        "The system returned an error: denied"
    );
}
