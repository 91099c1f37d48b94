use shrinkpath::{shrink, shrink_detailed, shrink_ellipsis, shrink_fish, shrink_to, shrink_unique, PathStyle, ShrinkOptions, Strategy};

#[test]
fn convenience_shrink_to() {
    let result = shrink_to("/home/john/projects/rust/myapp/src/lib.rs", 30);
    assert!(result.len() <= 30);
    assert!(result.ends_with("lib.rs"));
}

#[test]
fn convenience_shrink_fish() {
    let result = shrink_fish("/home/john/projects/rust/myapp/src/lib.rs");
    assert_eq!(result, "/h/j/p/r/m/s/lib.rs");
}

#[test]
fn convenience_shrink_ellipsis() {
    let result = shrink_ellipsis("/home/john/projects/rust/myapp/src/lib.rs", 30);
    assert!(result.len() <= 30);
    assert!(result.ends_with("lib.rs"));
    assert!(result.contains("..."));
}

#[test]
fn empty_path() {
    assert_eq!(shrink_to("", 30), "");
}

#[test]
fn root_only() {
    assert_eq!(shrink_to("/", 5), "/");
}

#[test]
fn lib_filename_only() {
    assert_eq!(shrink_to("file.txt", 5), "file.txt");
}

#[test]
fn detailed_result() {
    let result = shrink_detailed(
        "/home/john/projects/rust/myapp/src/lib.rs",
        &ShrinkOptions::new(30),
    );
    assert!(result.was_truncated);
    assert!(result.shortened_len <= 30);
    assert_eq!(result.detected_style, PathStyle::Unix);
}

#[test]
fn detailed_no_truncation() {
    let result = shrink_detailed("/home/user/file.txt", &ShrinkOptions::new(50));
    assert!(!result.was_truncated);
    assert_eq!(result.shortened, "/home/user/file.txt");
}

#[test]
fn custom_ellipsis() {
    let opts = ShrinkOptions::new(25)
        .strategy(Strategy::Ellipsis)
        .ellipsis("..");
    let result = shrink("/home/john/deep/nested/path/to/file.rs", &opts);
    assert!(result.len() <= 25, "got len {}: {}", result.len(), result);
    assert!(
        result.contains(".."),
        "should contain custom ellipsis: {result}"
    );
    assert!(
        !result.contains("..."),
        "should use '..' not '...': {result}"
    );
}

#[test]
fn force_windows_style() {
    let result = shrink_to("C:\\Users\\Admin\\AppData\\Local\\Temp\\file.txt", 30);
    assert!(result.len() <= 30);
    assert!(result.ends_with("file.txt"));
}

#[test]
fn force_path_style() {
    let opts = ShrinkOptions::new(30).path_style(PathStyle::Windows);
    let result = shrink("C:/Users/Admin/AppData/Local/Temp/file.txt", &opts);
    assert!(
        result.contains('\\'),
        "should use windows separators: {result}"
    );
}

#[test]
fn unc_path() {
    let result = shrink_to("\\\\server\\share\\dept\\project\\reports\\q4.xlsx", 35);
    assert!(result.len() <= 35);
    assert!(result.ends_with("q4.xlsx"));
}

#[test]
fn idempotent_on_short_paths() {
    let path = "/home/user/file.txt";
    let result = shrink_to(path, 50);
    assert_eq!(result, path);
}

#[test]
fn cross_platform_windows_on_any_host() {
    // Windows path should be detected and handled regardless of host OS
    let result = shrink_to(
        ".\\Users\\Admin\\AppData\\Local\\Packages\\Microsoft\\file.txt",
        40,
    );
    assert!(result.len() <= 40, "got len {}: {}", result.len(), result);
    assert!(result.ends_with("file.txt"));
    assert!(result.contains('\\'));
}

#[test]
fn dir_length_two() {
    let opts = ShrinkOptions::new(50)
        .strategy(Strategy::Fish)
        .dir_length(2);
    let result = shrink("/home/john/projects/rust/myapp/src/lib.rs", &opts);
    assert_eq!(result, "/ho/jo/pr/ru/my/sr/lib.rs");
}

#[test]
fn full_length_dirs_one() {
    let opts = ShrinkOptions::new(50)
        .strategy(Strategy::Fish)
        .full_length_dirs(1);
    let result = shrink("/home/john/projects/rust/myapp/src/lib.rs", &opts);
    assert_eq!(result, "/h/j/p/r/m/src/lib.rs");
}

#[test]
fn full_length_dirs_two() {
    let opts = ShrinkOptions::new(50)
        .strategy(Strategy::Fish)
        .full_length_dirs(2);
    let result = shrink("/home/john/projects/rust/myapp/src/lib.rs", &opts);
    assert_eq!(result, "/h/j/p/r/myapp/src/lib.rs");
}

// ── Mapped locations tests ───────────────────────────────────────────

#[test]
fn mapped_location_tilde() {
    let opts = ShrinkOptions::new(50).map_location("/home/john", "~");
    let result = shrink("/home/john/projects/rust/lib.rs", &opts);
    assert_eq!(result, "~/projects/rust/lib.rs");
}

#[test]
fn mapped_location_custom() {
    let opts = ShrinkOptions::new(50).map_location("/home/john/projects", "PROJ:");
    let result = shrink("/home/john/projects/rust/myapp/src/lib.rs", &opts);
    assert!(result.starts_with("PROJ:"), "got: {result}");
    assert!(result.ends_with("lib.rs"));
}

#[test]
fn mapped_location_longest_match() {
    let opts = ShrinkOptions::new(50)
        .map_location("/home/john", "~")
        .map_location("/home/john/projects", "PROJ:");
    let result = shrink("/home/john/projects/rust/lib.rs", &opts);
    assert!(
        result.starts_with("PROJ:"),
        "longer match should win: {result}"
    );
}

#[test]
fn mapped_location_no_match() {
    let opts = ShrinkOptions::new(50).map_location("/opt/data", "DATA:");
    let result = shrink("/home/john/file.rs", &opts);
    assert_eq!(result, "/home/john/file.rs");
}

#[test]
fn mapped_location_windows() {
    let opts = ShrinkOptions::new(50).map_location("C:\\Users\\Admin", "~");
    let result = shrink("C:\\Users\\Admin\\Documents\\file.txt", &opts);
    assert!(result.starts_with("~"), "got: {result}");
    assert!(result.ends_with("file.txt"));
}

// ── Anchor segments tests ────────────────────────────────────────────

#[test]
fn anchor_preserves_segment_fish() {
    let opts = ShrinkOptions::new(50)
        .strategy(Strategy::Fish)
        .anchor("src");
    let result = shrink("/home/john/projects/rust/myapp/src/lib.rs", &opts);
    assert!(
        result.contains("/src/"),
        "should preserve anchored segment: {result}"
    );
    assert_eq!(result, "/h/j/p/r/m/src/lib.rs");
}

#[test]
fn anchor_multiple() {
    let opts = ShrinkOptions::new(50)
        .strategy(Strategy::Fish)
        .anchor("src")
        .anchor("myapp");
    let result = shrink("/home/john/projects/rust/myapp/src/lib.rs", &opts);
    assert!(result.contains("myapp"), "got: {result}");
    assert!(result.contains("src"), "got: {result}");
}

#[test]
fn anchor_in_hybrid() {
    let opts = ShrinkOptions::new(35).anchor("src");
    let result = shrink("/home/john/projects/rust/myapp/src/lib.rs", &opts);
    assert!(
        result.contains("src"),
        "anchor should survive hybrid: {result}"
    );
    assert!(result.len() <= 35, "got len {}: {result}", result.len());
}

#[test]
fn anchor_no_match() {
    let opts = ShrinkOptions::new(50)
        .strategy(Strategy::Fish)
        .anchor("nonexistent");
    let result = shrink("/home/john/projects/lib.rs", &opts);
    assert_eq!(result, "/h/j/p/lib.rs");
}

#[test]
fn convenience_shrink_unique() {
    let result = shrink_unique("/home/john/projects/rust/lib.rs");
    assert_eq!(result, "/h/j/p/r/lib.rs");
}

// ── Segment metadata tests ──────────────────────────────────────────

#[test]
fn segment_metadata_fish() {
    let opts = ShrinkOptions::new(usize::MAX).strategy(Strategy::Fish);
    let result = shrink_detailed("/home/john/projects/lib.rs", &opts);
    assert_eq!(result.segments.len(), 4); // home, john, projects, lib.rs

    assert_eq!(result.segments[0].original, "home");
    assert_eq!(result.segments[0].shortened, "h");
    assert!(result.segments[0].was_abbreviated);
    assert!(!result.segments[0].is_filename);

    assert_eq!(result.segments[1].original, "john");
    assert_eq!(result.segments[1].shortened, "j");

    assert_eq!(result.segments[3].original, "lib.rs");
    assert_eq!(result.segments[3].shortened, "lib.rs");
    assert!(!result.segments[3].was_abbreviated);
    assert!(result.segments[3].is_filename);
}

#[test]
fn segment_metadata_no_truncation() {
    let result = shrink_detailed("/home/user/file.txt", &ShrinkOptions::new(50));
    assert_eq!(result.segments.len(), 3);
    assert!(!result.segments[0].was_abbreviated);
    assert!(!result.segments[1].was_abbreviated);
    assert!(result.segments[2].is_filename);
    assert_eq!(result.segments[2].original, "file.txt");
}

#[test]
fn segment_metadata_filename_only() {
    let result = shrink_detailed("file.txt", &ShrinkOptions::new(50));
    assert_eq!(result.segments.len(), 1);
    assert!(result.segments[0].is_filename);
    assert_eq!(result.segments[0].original, "file.txt");
    assert!(!result.segments[0].was_abbreviated);
}

#[test]
fn segment_metadata_empty() {
    let result = shrink_detailed("", &ShrinkOptions::new(50));
    assert!(result.segments.is_empty());
}
