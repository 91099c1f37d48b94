use shrinkpath::path_info::PathInfo;
use shrinkpath::strategy::unique::shrink_unique;

#[test]
fn all_unique_first_chars() {
    let info = PathInfo::parse("/home/john/projects/rust/lib.rs", None);
    let result = shrink_unique(&info, &[]);
    assert_eq!(result, "/h/j/p/r/lib.rs");
}

#[test]
fn identical_segments_kept_full() {
    let info = PathInfo::parse("/dev/dev/dev/file.txt", None);
    let result = shrink_unique(&info, &[]);
    assert_eq!(result, "/dev/dev/dev/file.txt");
}

#[test]
fn partial_disambiguation() {
    let info = PathInfo::parse("/home/documents/downloads/file.txt", None);
    let result = shrink_unique(&info, &[]);
    // h is unique. documents vs downloads: "doc" vs "dow"
    assert_eq!(result, "/h/doc/dow/file.txt");
}

#[test]
fn dot_prefixed_disambiguation() {
    let info = PathInfo::parse("/home/user/.config/.cache/file.txt", None);
    let result = shrink_unique(&info, &[]);
    // home→h, user→u unique. .config vs .cache: after dot, "co" vs "ca"
    assert_eq!(result, "/h/u/.co/.ca/file.txt");
}

#[test]
fn windows_unique() {
    let info = PathInfo::parse("C:\\Users\\Admin\\AppData\\Application\\file.txt", None);
    let result = shrink_unique(&info, &[]);
    // Users→U unique. Admin shares 'A' with AppData/Application → "Ad".
    // AppData vs Application: "AppD" vs "Appl"
    assert_eq!(result, "C:\\U\\Ad\\AppD\\Appl\\file.txt");
}

#[test]
fn single_segment() {
    let info = PathInfo::parse("/home/file.txt", None);
    let result = shrink_unique(&info, &[]);
    assert_eq!(result, "/h/file.txt");
}

#[test]
fn anchored_segment_preserved() {
    let info = PathInfo::parse("/home/john/src/lib.rs", None);
    let anchors = vec!["src".to_string()];
    let result = shrink_unique(&info, &anchors);
    assert_eq!(result, "/h/j/src/lib.rs");
}
