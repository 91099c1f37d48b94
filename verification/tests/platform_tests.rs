use shrinkpath::platform::{detect_style, PathStyle};

#[test]
fn detect_unix() {
    assert_eq!(detect_style("/home/user/file.txt"), PathStyle::Unix);
    assert_eq!(detect_style("/Users/john/Documents"), PathStyle::Unix);
    assert_eq!(detect_style("~/file.txt"), PathStyle::Unix);
    assert_eq!(detect_style("relative/path/file"), PathStyle::Unix);
}

#[test]
fn detect_windows_drive() {
    assert_eq!(
        detect_style("C:\\Users\\john\\file.txt"),
        PathStyle::Windows
    );
    assert_eq!(detect_style("D:\\Data\\file.txt"), PathStyle::Windows);
    assert_eq!(detect_style("C:/Users/john/file.txt"), PathStyle::Windows);
}

#[test]
fn detect_windows_unc() {
    assert_eq!(
        detect_style("\\\\server\\share\\file.txt"),
        PathStyle::Windows
    );
}

#[test]
fn detect_windows_dot_backslash() {
    assert_eq!(
        detect_style(".\\Users\\Admin\\file.txt"),
        PathStyle::Windows
    );
}

#[test]
fn detect_windows_backslash_only() {
    assert_eq!(detect_style("Users\\Admin\\file.txt"), PathStyle::Windows);
}
