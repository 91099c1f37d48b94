use shrinkpath::cli::{json_escape, json_line, parse_style, strategy_from_name};
use shrinkpath::fs_aware::disambiguate_among;
use shrinkpath::metadata::can_shrink_detailed;
use shrinkpath::path_info::PathInfo;
use shrinkpath::strategy::fish::abbreviate_segment;
use shrinkpath::{
    shrink, shrink_detailed, shrink_ellipsis, shrink_fish, shrink_to, shrink_unique,
    PathStyle, ShrinkOptions, Strategy,
};

// ── Exact results of each strategy ───────────────────────────────────────

#[test]
fn hybrid_exact_phase_one() {
    assert_eq!(
        shrink_to("/home/john/projects/rust/myapp/src/lib.rs", 30),
        "/home/john/p/r/m/s/lib.rs"
    );
}

#[test]
fn hybrid_exact_collapse_keeps_identity() {
    assert_eq!(
        shrink_to("/home/john/projects/rust/myapp/src/lib.rs", 20),
        "/h/john/.../s/lib.rs"
    );
}

#[test]
fn hybrid_exact_collapse_after_identity_fished() {
    assert_eq!(
        shrink_to("/home/john/projects/rust/myapp/src/lib.rs", 15),
        "/.../m/s/lib.rs"
    );
}

#[test]
fn hybrid_uses_dir_length_and_full_length_dirs() {
    let p = "/home/john/projects/rust/myapp/src/lib.rs";
    assert_eq!(
        shrink(p, &ShrinkOptions::new(30).dir_length(2)),
        "/home/john/pr/ru/my/sr/lib.rs"
    );
    assert_eq!(
        shrink(p, &ShrinkOptions::new(30).full_length_dirs(1)),
        "/home/john/p/r/m/src/lib.rs"
    );
}

#[test]
fn hybrid_minimal_fallback_has_one_separator() {
    assert_eq!(shrink_to("/.config/.local/f.txt", 11), "/.../f.txt");
}

#[test]
fn hybrid_exact_keeps_identity() {
    assert_eq!(
        shrink_to(
            "/Users/john/Library/Application Support/Code/User/settings.json",
            35
        ),
        "/Users/john/L/A/C/U/settings.json"
    );
}

#[test]
fn hybrid_falls_back_to_filename() {
    assert_eq!(shrink_to("~/a/b/c/d/file.txt", 12), "file.txt");
    assert_eq!(
        shrink_to("\\\\srv\\share\\dept\\project\\reports\\q4.xlsx", 20),
        "q4.xlsx"
    );
}

#[test]
fn ellipsis_exact() {
    let p = "/home/john/projects/rust/myapp/src/lib.rs";
    assert_eq!(shrink_ellipsis(p, 30), "/home/john/.../src/lib.rs");
    assert_eq!(shrink_ellipsis(p, 35), "/home/john/.../myapp/src/lib.rs");
}

#[test]
fn ellipsis_minimal_fallback_has_one_separator() {
    assert_eq!(shrink_ellipsis("/home/john/a/b/c/d/file.rs", 20), "/.../file.rs");
}

#[test]
fn ellipsis_custom_marker_exact() {
    let opts = ShrinkOptions::new(25).strategy(Strategy::Ellipsis).ellipsis("..");
    assert_eq!(
        shrink("/home/john/deep/nested/path/to/file.rs", &opts),
        "/home/john/../to/file.rs"
    );
}

#[test]
fn unique_exact_prefix_of_other() {
    // "app" is a prefix of "application": it stays whole, "application" needs 4 chars.
    assert_eq!(shrink_unique("/home/app/application/file"), "/h/app/appl/file");
}

#[test]
fn fish_dir_length_zero_keeps_dot() {
    assert_eq!(abbreviate_segment(".config", 0, &[]), ".");
    let opts = ShrinkOptions::new(50).strategy(Strategy::Fish).dir_length(0);
    assert_eq!(shrink("/.a/.b/file", &opts), "/././file");
}

#[test]
fn fish_dir_length_zero_empties_plain_segment() {
    assert_eq!(abbreviate_segment("projects", 0, &[]), "");
    let opts = ShrinkOptions::new(50).strategy(Strategy::Fish).dir_length(0);
    assert_eq!(shrink("/home/file.txt", &opts), "/file.txt");
    let anchored = opts.anchor("home");
    assert_eq!(shrink("/home/file.txt", &anchored), "/home/file.txt");
}

#[test]
fn fish_from_string_dotfiles() {
    assert_eq!(shrink_fish("~/.config/nvim/lua/init.lua"), "~/.c/n/l/init.lua");
}

// ── Laws on concrete values ──────────────────────────────────────────────

#[test]
fn target_length_holds_when_filename_fits() {
    let p = "/home/john/projects/rust/myapp/src/deep/nested/main.rs";
    for max_len in 7..70 {
        let h = shrink_to(p, max_len);
        assert!(h.len() <= max_len, "hybrid {max_len}: {h}");
        assert!(h.ends_with("main.rs"));
        let e = shrink_ellipsis(p, max_len);
        assert!(e.len() <= max_len, "ellipsis {max_len}: {e}");
        assert!(e.ends_with("main.rs"));
    }
}

#[test]
fn target_length_holds_without_segments() {
    assert_eq!(shrink_to("C:\\file.txt", 9), "file.txt");
    assert_eq!(shrink_to("/file.txt", 8), "file.txt");
    assert_eq!(shrink_to("/file.txt", 9), "/file.txt");
    assert_eq!(shrink_ellipsis("/file.txt", 8), "file.txt");
}

#[test]
fn filename_is_never_truncated() {
    let p = "/a/b/c/very_long_filename.txt";
    assert_eq!(shrink_to(p, 3), "very_long_filename.txt");
    assert_eq!(shrink_ellipsis(p, 3), "very_long_filename.txt");
    assert!(shrink_fish(p).ends_with("very_long_filename.txt"));
    assert!(shrink_unique(p).ends_with("very_long_filename.txt"));
}

#[test]
fn short_paths_are_normalized_only() {
    assert_eq!(shrink_to("C:/Users/Admin/file.txt", 100), "C:\\Users\\Admin\\file.txt");
    assert_eq!(shrink_ellipsis("/home//user/file.txt", 100), "/home/user/file.txt");
}

#[test]
fn anchors_survive_every_strategy() {
    let p = "/home/john/projects/rust/myapp/src/lib.rs";
    for s in [Strategy::Fish, Strategy::Unique] {
        let opts = ShrinkOptions::new(30).strategy(s).anchor("projects");
        assert!(shrink(p, &opts).contains("/projects/"));
    }
    let opts = ShrinkOptions::new(36).anchor("projects");
    assert_eq!(shrink(p, &opts), "/home/john/projects/r/m/s/lib.rs");
}

#[test]
fn identical_segments_kept_in_full_by_unique() {
    assert_eq!(shrink_unique("/x/lib/lib/file"), "/x/lib/lib/file");
    assert_eq!(shrink_unique("/x/.lib/lib/file"), "/x/.lib/lib/file");
}

#[test]
fn mapped_locations_longest_wins_and_ties_keep_first() {
    let opts = ShrinkOptions::new(50)
        .map_location("/home/john", "A")
        .map_location("/home/joh2", "B")
        .map_location("/home/john", "C");
    assert_eq!(shrink("/home/john/projects/lib.rs", &opts), "A/projects/lib.rs");
    let opts = ShrinkOptions::new(50)
        .map_location("/home", "H")
        .map_location("/home/john", "~");
    assert_eq!(shrink("/home/john/projects/lib.rs", &opts), "~/projects/lib.rs");
}

#[test]
fn reassemble_inverts_parse_on_clean_paths() {
    for p in ["/home/john/a/b.txt", "C:/Users/x/y.txt", "~/a/b", ".\\a\\b.txt", "\\\\srv\\share\\d\\f"] {
        let info = PathInfo::parse(p, None);
        let texts: Vec<&str> = info.segments.iter().map(|s| s.text.as_str()).collect();
        let back = info.reassemble(&texts);
        let expected = if p.starts_with("C:") { p.replace('/', "\\") } else { p.to_string() };
        assert_eq!(back, expected);
    }
}

#[test]
fn shrink_to_keeps_clean_short_paths() {
    for p in ["/", "~", "C:\\", "\\\\srv\\share\\d\\f", "rel/a/b", "/home/jörg/x.txt"] {
        assert_eq!(shrink_to(p, p.len()), p);
    }
}

#[test]
fn parse_keeps_its_invariants() {
    let info = PathInfo::parse("/home//john///x\\y.txt", None);
    let texts: Vec<&str> = info.segments.iter().map(|s| s.text.as_str()).collect();
    assert_eq!(texts, vec!["home", "john", "x"]);
    assert_eq!(info.filename, "y.txt");
    assert_eq!(info.style, PathStyle::Unix);
    let info = PathInfo::parse("/home//john///x\\y.txt", Some(PathStyle::Windows));
    let texts: Vec<&str> = info.segments.iter().map(|s| s.text.as_str()).collect();
    assert_eq!(texts, vec!["home", "john", "x"]);
    assert_eq!(info.filename, "y.txt");
    assert_eq!(info.style, PathStyle::Windows);
    let empty = PathInfo::parse("///", None);
    assert!(empty.segments.is_empty());
    assert_eq!(empty.filename, "");
}

#[test]
fn forced_style_is_reported() {
    let opts = ShrinkOptions::new(50).path_style(PathStyle::Windows);
    let r = shrink_detailed("/home/user/file.txt", &opts);
    assert_eq!(r.detected_style, PathStyle::Windows);
    assert_eq!(r.shortened, "\\home\\user\\file.txt");
    assert!(r.was_truncated);
}

// ── Segment metadata ─────────────────────────────────────────────────────

#[test]
fn metadata_ellipsis_collapse() {
    let opts = ShrinkOptions::new(30).strategy(Strategy::Ellipsis);
    let r = shrink_detailed("/home/john/projects/rust/myapp/src/lib.rs", &opts);
    assert_eq!(r.shortened, "/home/john/.../src/lib.rs");
    assert_eq!(r.original_len, 41);
    assert_eq!(r.shortened_len, 25);
    let shortened: Vec<&str> = r.segments.iter().map(|s| s.shortened.as_str()).collect();
    assert_eq!(shortened, vec!["home", "john", "...", "...", "...", "src", "lib.rs"]);
    let originals: Vec<&str> = r.segments.iter().map(|s| s.original.as_str()).collect();
    assert_eq!(originals, vec!["home", "john", "projects", "rust", "myapp", "src", "lib.rs"]);
    assert!(r.segments[2].was_abbreviated);
    assert!(!r.segments[5].was_abbreviated);
    assert!(r.segments[6].is_filename);
}

#[test]
fn metadata_custom_marker_lists_originals() {
    let opts = ShrinkOptions::new(30).strategy(Strategy::Ellipsis).ellipsis("~");
    let r = shrink_detailed("/home/john/projects/rust/myapp/src/lib.rs", &opts);
    assert_eq!(r.shortened, "/home/john/~/myapp/src/lib.rs");
    let dirs: Vec<&str> = r
        .segments
        .iter()
        .filter(|s| !s.is_filename)
        .map(|s| s.original.as_str())
        .collect();
    assert_eq!(dirs, vec!["home", "john", "projects", "rust", "myapp", "src"]);
    assert_eq!(r.segments[2].shortened, "~");
    assert!(r.segments[2].was_abbreviated);
    assert!(r.segments[3].was_abbreviated);
    assert!(!r.segments[4].was_abbreviated);
}

#[test]
fn metadata_marker_with_separators() {
    let opts = ShrinkOptions::new(40).strategy(Strategy::Ellipsis).ellipsis("../a/b");
    let p = "/pppppppp/qqqqqqqq/rrrrrrrr/ssssssss/file.txt";
    assert!(can_shrink_detailed(p, &opts));
    let r = shrink_detailed(p, &opts);
    assert_eq!(r.shortened, "/../a/b/rrrrrrrr/ssssssss/file.txt");
    let pairs: Vec<(&str, &str)> = r
        .segments
        .iter()
        .map(|s| (s.original.as_str(), s.shortened.as_str()))
        .collect();
    assert_eq!(
        pairs,
        vec![
            ("pppppppp", "a"),
            ("qqqqqqqq", "b"),
            ("rrrrrrrr", "rrrrrrrr"),
            ("ssssssss", "ssssssss"),
            ("file.txt", "file.txt")
        ]
    );
}

#[test]
fn metadata_refused_when_tail_outnumbers_original() {
    let opts = ShrinkOptions::new(40).strategy(Strategy::Ellipsis).ellipsis("../a/b/c/d/e/f");
    let p = "/pppppppp/qqqqqqqq/rrrrrrrr/ssssssss/file.txt";
    assert_eq!(shrink(p, &opts), "/../a/b/c/d/e/f/ssssssss/file.txt");
    assert!(!can_shrink_detailed(p, &opts));
}

#[test]
fn metadata_multibyte_lengths_are_bytes() {
    let r = shrink_detailed("/home/jörg/file.txt", &ShrinkOptions::new(50));
    assert_eq!(r.original_len, 20);
    assert_eq!(r.shortened_len, 20);
    assert!(!r.was_truncated);
}

// ── Command-line decisions ───────────────────────────────────────────────

#[test]
fn strategy_names() {
    assert_eq!(strategy_from_name("FISH"), Some(Strategy::Fish));
    assert_eq!(strategy_from_name("e"), Some(Strategy::Ellipsis));
    assert_eq!(strategy_from_name("Hybrid"), Some(Strategy::Hybrid));
    assert_eq!(strategy_from_name("u"), Some(Strategy::Unique));
    assert_eq!(strategy_from_name("fishy"), None);
}

#[test]
fn style_names() {
    assert_eq!(parse_style("Unix"), Some(PathStyle::Unix));
    assert_eq!(parse_style("WIN"), Some(PathStyle::Windows));
    assert_eq!(parse_style("w"), Some(PathStyle::Windows));
    assert_eq!(parse_style("auto"), None);
}

#[test]
fn json_escapes() {
    assert_eq!(json_escape("plain"), "\"plain\"");
    assert_eq!(json_escape("a\"b\\c"), "\"a\\\"b\\\\c\"");
    assert_eq!(json_escape("\n\r\t"), "\"\\n\\r\\t\"");
    assert_eq!(json_escape("\u{1}\u{1f}"), "\"\\u0001\\u001f\"");
    assert_eq!(json_escape("é"), "\"é\"");
}

#[test]
fn json_lines() {
    let p = "/home/john/projects/rust/myapp/src/lib.rs";
    let r = shrink_detailed(p, &ShrinkOptions::new(30));
    assert_eq!(
        json_line(p, &r),
        "{\"original\":\"/home/john/projects/rust/myapp/src/lib.rs\",\"shortened\":\"/home/john/p/r/m/s/lib.rs\",\"original_len\":41,\"shortened_len\":25,\"truncated\":true,\"style\":\"unix\"}"
    );
    let w = "C:\\a\\b.txt";
    let r = shrink_detailed(w, &ShrinkOptions::new(100));
    assert_eq!(
        json_line(w, &r),
        "{\"original\":\"C:\\\\a\\\\b.txt\",\"shortened\":\"C:\\\\a\\\\b.txt\",\"original_len\":10,\"shortened_len\":10,\"truncated\":false,\"style\":\"windows\"}"
    );
    let r = shrink_detailed("", &ShrinkOptions::new(10));
    assert_eq!(
        json_line("", &r),
        "{\"original\":\"\",\"shortened\":\"\",\"original_len\":0,\"shortened_len\":0,\"truncated\":false,\"style\":\"unix\"}"
    );
}

// ── Disambiguation among siblings ────────────────────────────────────────

fn names(v: &[&str]) -> Vec<String> {
    v.iter().map(|s| s.to_string()).collect()
}

#[test]
fn disambiguate_among_siblings() {
    let sibs = names(&["documents", "downloads", "desktop"]);
    assert_eq!(disambiguate_among("documents", &sibs), "doc");
    assert_eq!(disambiguate_among("downloads", &sibs), "dow");
    assert_eq!(disambiguate_among("desktop", &sibs), "de");
}

#[test]
fn disambiguate_among_alone_and_prefixes() {
    assert_eq!(disambiguate_among("only_child", &names(&["only_child"])), "o");
    assert_eq!(disambiguate_among("", &names(&[])), "");
    let sibs = names(&["app", "application"]);
    assert_eq!(disambiguate_among("app", &sibs), "app");
    assert_eq!(disambiguate_among("application", &sibs), "appl");
}
