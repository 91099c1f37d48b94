use shrinkpath::path_info::PathInfo;
use shrinkpath::strategy::ellipsis::shrink_ellipsis;

#[test]
fn ellipsis_already_short() {
    let info = PathInfo::parse("/home/user/file.txt", None);
    assert_eq!(shrink_ellipsis(&info, 50, "..."), "/home/user/file.txt");
}

#[test]
fn basic_ellipsis() {
    let info = PathInfo::parse("/home/john/projects/rust/myapp/src/lib.rs", None);
    let result = shrink_ellipsis(&info, 30, "...");
    assert!(result.len() <= 30, "got len {}: {}", result.len(), result);
    assert!(result.ends_with("lib.rs"));
    assert!(result.contains("..."));
}

#[test]
fn preserves_identity() {
    let info = PathInfo::parse("/home/john/projects/rust/myapp/src/lib.rs", None);
    let result = shrink_ellipsis(&info, 35, "...");
    assert!(
        result.contains("john"),
        "should preserve identity: {result}"
    );
}

#[test]
fn windows_ellipsis() {
    let info = PathInfo::parse("C:\\Users\\Admin\\AppData\\Local\\Temp\\file.txt", None);
    let result = shrink_ellipsis(&info, 30, "...");
    assert!(result.len() <= 30, "got len {}: {}", result.len(), result);
    assert!(result.ends_with("file.txt"));
}

#[test]
fn filename_exceeds_maxlen() {
    let info = PathInfo::parse(
        "/a/b/c/very_long_filename_that_exceeds_everything.txt",
        None,
    );
    let result = shrink_ellipsis(&info, 10, "...");
    assert_eq!(result, "very_long_filename_that_exceeds_everything.txt");
}

#[test]
fn ellipsis_filename_only() {
    let info = PathInfo::parse("file.txt", None);
    let result = shrink_ellipsis(&info, 5, "...");
    assert_eq!(result, "file.txt");
}

#[test]
fn keeps_right_segments() {
    let info = PathInfo::parse("/home/john/a/b/c/d/e/src/lib.rs", None);
    // max_len=25 forces ellipsis (original is 31 chars)
    let result = shrink_ellipsis(&info, 25, "...");
    // Should keep segments nearest to filename
    assert!(result.len() <= 25, "got len {}: {}", result.len(), result);
    assert!(result.ends_with("lib.rs"));
    assert!(result.contains("..."));
}
