use shrinkpath::path_info::{PathInfo, SegmentPriority};
use shrinkpath::PathStyle;

#[test]
fn parse_unix_home() {
    let info = PathInfo::parse("/home/john/projects/rust/file.rs", None);
    assert_eq!(info.prefix, "/");
    assert_eq!(info.filename, "file.rs");
    assert_eq!(info.segments.len(), 4);
    assert_eq!(info.segments[0].text, "home");
    assert_eq!(info.segments[0].priority, SegmentPriority::Context);
    assert_eq!(info.segments[1].text, "john");
    assert_eq!(info.segments[1].priority, SegmentPriority::Identity);
    assert_eq!(info.segments[2].priority, SegmentPriority::Expendable);
}

#[test]
fn parse_windows_drive() {
    let info = PathInfo::parse("C:\\Users\\Admin\\AppData\\Local\\file.txt", None);
    assert_eq!(info.prefix, "C:\\");
    assert_eq!(info.filename, "file.txt");
    assert_eq!(info.segments[0].text, "Users");
    assert_eq!(info.segments[0].priority, SegmentPriority::Context);
    assert_eq!(info.segments[1].text, "Admin");
    assert_eq!(info.segments[1].priority, SegmentPriority::Identity);
}

#[test]
fn parse_unc() {
    let info = PathInfo::parse("\\\\server\\share\\dept\\file.xlsx", None);
    assert_eq!(info.prefix, "\\\\server\\share");
    assert_eq!(info.filename, "file.xlsx");
    assert_eq!(info.segments.len(), 1);
    assert_eq!(info.segments[0].text, "dept");
}

#[test]
fn parse_tilde() {
    let info = PathInfo::parse("~/projects/rust/file.rs", None);
    assert_eq!(info.prefix, "~");
    assert_eq!(info.filename, "file.rs");
    assert_eq!(info.segments.len(), 2);
}

#[test]
fn parse_dot_backslash() {
    let info = PathInfo::parse(".\\Users\\Admin\\file.txt", None);
    assert_eq!(info.prefix, ".");
    assert_eq!(info.style, PathStyle::Windows);
    assert_eq!(info.filename, "file.txt");
}

#[test]
fn parse_empty() {
    let info = PathInfo::parse("", None);
    assert_eq!(info.prefix, "");
    assert_eq!(info.filename, "");
    assert!(info.segments.is_empty());
}

#[test]
fn parse_filename_only() {
    let info = PathInfo::parse("file.txt", None);
    assert_eq!(info.filename, "file.txt");
    assert!(info.segments.is_empty());
}

#[test]
fn reassemble() {
    let info = PathInfo::parse("/home/john/projects/file.rs", None);
    let texts: Vec<&str> = info.segments.iter().map(|s| s.text.as_str()).collect();
    let result = info.reassemble(&texts);
    assert_eq!(result, "/home/john/projects/file.rs");
}

#[test]
fn reassemble_windows() {
    let info = PathInfo::parse("C:\\Users\\Admin\\Docs\\file.txt", None);
    let texts: Vec<&str> = info.segments.iter().map(|s| s.text.as_str()).collect();
    let result = info.reassemble(&texts);
    assert_eq!(result, "C:\\Users\\Admin\\Docs\\file.txt");
}
