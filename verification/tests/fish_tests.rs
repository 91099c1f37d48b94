use shrinkpath::path_info::PathInfo;
use shrinkpath::strategy::fish::{abbreviate_segment, shrink_fish};

#[test]
fn abbreviate_normal() {
    assert_eq!(abbreviate_segment("Users", 1, &[]), "U");
    assert_eq!(abbreviate_segment("projects", 1, &[]), "p");
}

#[test]
fn abbreviate_dotfile() {
    assert_eq!(abbreviate_segment(".config", 1, &[]), ".c");
    assert_eq!(abbreviate_segment(".local", 1, &[]), ".l");
    assert_eq!(abbreviate_segment(".", 1, &[]), ".");
}

#[test]
fn abbreviate_empty() {
    assert_eq!(abbreviate_segment("", 1, &[]), "");
}

#[test]
fn fish_unix() {
    let info = PathInfo::parse("/home/john/projects/rust/myapp/src/lib.rs", None);
    assert_eq!(shrink_fish(&info, 1, 0, &[]), "/h/j/p/r/m/s/lib.rs");
}

#[test]
fn fish_dotfiles() {
    let info = PathInfo::parse("/home/john/.config/nvim/init.lua", None);
    assert_eq!(shrink_fish(&info, 1, 0, &[]), "/h/j/.c/n/init.lua");
}

#[test]
fn fish_windows() {
    let info = PathInfo::parse("C:\\Users\\john\\AppData\\Local\\Temp\\file.txt", None);
    assert_eq!(shrink_fish(&info, 1, 0, &[]), "C:\\U\\j\\A\\L\\T\\file.txt");
}

#[test]
fn fish_tilde() {
    let info = PathInfo::parse("~/projects/rust/file.rs", None);
    assert_eq!(shrink_fish(&info, 1, 0, &[]), "~/p/r/file.rs");
}

#[test]
fn fish_filename_only() {
    let info = PathInfo::parse("file.txt", None);
    assert_eq!(shrink_fish(&info, 1, 0, &[]), "file.txt");
}

#[test]
fn fish_unc() {
    let info = PathInfo::parse("\\\\server\\share\\dept\\project\\file.xlsx", None);
    assert_eq!(
        shrink_fish(&info, 1, 0, &[]),
        "\\\\server\\share\\d\\p\\file.xlsx"
    );
}

#[test]
fn fish_unicode() {
    let info = PathInfo::parse("/home/user/Schone/Musik/file.mp3", None);
    assert_eq!(shrink_fish(&info, 1, 0, &[]), "/h/u/S/M/file.mp3");
}

#[test]
fn abbreviate_segment_multi_char() {
    assert_eq!(abbreviate_segment("projects", 2, &[]), "pr");
    assert_eq!(abbreviate_segment("projects", 3, &[]), "pro");
    assert_eq!(abbreviate_segment("projects", 1, &[]), "p");
    assert_eq!(abbreviate_segment(".config", 2, &[]), ".co");
    assert_eq!(abbreviate_segment(".config", 1, &[]), ".c");
    assert_eq!(abbreviate_segment("a", 3, &[]), "a"); // shorter than N
}
