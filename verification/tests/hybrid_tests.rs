use shrinkpath::path_info::PathInfo;
use shrinkpath::strategy::hybrid::shrink_hybrid;

#[test]
fn hybrid_already_short() {
    let info = PathInfo::parse("/home/user/file.txt", None);
    assert_eq!(shrink_hybrid(&info, 50, "...", &[]), "/home/user/file.txt");
}

#[test]
fn phase1_fish_expendable() {
    let info = PathInfo::parse("/home/john/projects/rust/myapp/src/main.rs", None);
    let result = shrink_hybrid(&info, 35, "...", &[]);
    // Should fish expendable segments first
    assert!(result.len() <= 35, "got len {}: {}", result.len(), result);
    assert!(result.ends_with("main.rs"));
    assert!(
        result.contains("john"),
        "should preserve identity: {result}"
    );
}

#[test]
fn phase3_collapse() {
    let info = PathInfo::parse(
        "/home/john/projects/rust/myapp/src/deep/nested/main.rs",
        None,
    );
    let result = shrink_hybrid(&info, 30, "...", &[]);
    assert!(result.len() <= 30, "got len {}: {}", result.len(), result);
    assert!(result.ends_with("main.rs"));
}

#[test]
fn windows_hybrid() {
    let info = PathInfo::parse(
        "C:\\Users\\Admin\\AppData\\Local\\Temp\\deep\\file.txt",
        None,
    );
    let result = shrink_hybrid(&info, 35, "...", &[]);
    assert!(result.len() <= 35, "got len {}: {}", result.len(), result);
    assert!(result.ends_with("file.txt"));
    // Should try to preserve Admin
    assert!(
        result.contains("Admin") || result.contains("A"),
        "should preserve identity somehow: {result}",
    );
}

#[test]
fn tilde_hybrid() {
    let info = PathInfo::parse("~/projects/rust/app/src/lib.rs", None);
    let result = shrink_hybrid(&info, 25, "...", &[]);
    assert!(result.len() <= 25, "got len {}: {}", result.len(), result);
    assert!(result.ends_with("lib.rs"));
}

#[test]
fn filename_exceeds() {
    let info = PathInfo::parse("/a/b/c/very_long_filename.txt", None);
    let result = shrink_hybrid(&info, 10, "...", &[]);
    assert_eq!(result, "very_long_filename.txt");
}

#[test]
fn macos_app_support() {
    let info = PathInfo::parse(
        "/Users/john/Library/Application Support/Code/User/settings.json",
        None,
    );
    let result = shrink_hybrid(&info, 45, "...", &[]);
    assert!(result.len() <= 45, "got len {}: {}", result.len(), result);
    assert!(result.ends_with("settings.json"));
    assert!(
        result.contains("john"),
        "should preserve identity: {result}"
    );
}

#[test]
fn dot_backslash() {
    let info = PathInfo::parse(
        ".\\Users\\Admin\\AppData\\Local\\Packages\\Microsoft.MicrosoftEdge\\file.txt",
        None,
    );
    let result = shrink_hybrid(&info, 40, "...", &[]);
    assert!(result.len() <= 40, "got len {}: {}", result.len(), result);
    assert!(result.ends_with("file.txt"));
}
