use vstd::prelude::*;

verus! {

/// Path style: Unix forward-slash or Windows backslash.
#[derive(Debug, Clone, Copy, PartialEq, Eq, Structural)]
pub enum PathStyle {
    /// Forward-slash paths: `/home/user/file.txt`
    Unix,
    /// Backslash paths: `C:\Users\user\file.txt`, `\\server\share\...`
    Windows,
}

/// `c` is an ASCII letter.
pub open spec fn is_ascii_alpha(c: char) -> bool {
    ('a' <= c && c <= 'z') || ('A' <= c && c <= 'Z')
}

/// `s` holds the character `c` somewhere.
pub open spec fn has_char(s: Seq<char>, c: char) -> bool {
    exists|i: int| 0 <= i < s.len() && s[i] == c
}

/// The style a path string is read in when none is forced, decided by the
/// ordered rules: UNC (`\\`), drive letter (`X:\` or `X:/`), dot-backslash
/// (`.\`), "a backslash but no forward slash", and otherwise Unix.
pub open spec fn detect_style_spec(s: Seq<char>) -> PathStyle {
    if s.len() >= 2 && s[0] == '\\' && s[1] == '\\' {
        PathStyle::Windows
    } else if s.len() >= 3 && is_ascii_alpha(s[0]) && s[1] == ':' && (s[2] == '\\' || s[2]
        == '/') {
        PathStyle::Windows
    } else if s.len() >= 2 && s[0] == '.' && s[1] == '\\' {
        PathStyle::Windows
    } else if has_char(s, '\\') && !has_char(s, '/') {
        PathStyle::Windows
    } else {
        PathStyle::Unix
    }
}

/// The separator character of a style.
pub open spec fn separator_spec(style: PathStyle) -> char {
    match style {
        PathStyle::Unix => '/',
        PathStyle::Windows => '\\',
    }
}

/// The separator that a style does not use.
pub open spec fn other_separator_spec(style: PathStyle) -> char {
    match style {
        PathStyle::Unix => '\\',
        PathStyle::Windows => '/',
    }
}

/// Whether the string `s` holds the character `c`.
pub fn str_has_char(s: &str, c: char) -> (r: bool)
    ensures
        r == has_char(s@, c),
{
    let n = s.unicode_len();
    let mut i: usize = 0;
    while i < n
        invariant
            n == s@.len(),
            i <= n,
            forall|j: int| 0 <= j < i ==> s@[j] != c,
        decreases n - i,
    {
        if s.get_char(i) == c {
            return true;
        }
        i = i + 1;
    }
    false
}

fn is_ascii_alpha_exec(c: char) -> (r: bool)
    ensures
        r == is_ascii_alpha(c),
{
    ('a' <= c && c <= 'z') || ('A' <= c && c <= 'Z')
}

/// Auto-detect path style from the input string.
pub fn detect_style(path: &str) -> (style: PathStyle)
    ensures
        style == detect_style_spec(path@),
{
    let n = path.unicode_len();
    // UNC path: \\server\share
    if n >= 2 && path.get_char(0) == '\\' && path.get_char(1) == '\\' {
        return PathStyle::Windows;
    }
    // Drive letter: C:\ or C:/
    if n >= 3 && is_ascii_alpha_exec(path.get_char(0)) && path.get_char(1) == ':' && (
    path.get_char(2) == '\\' || path.get_char(2) == '/') {
        return PathStyle::Windows;
    }
    // Dot-backslash prefix: .\Users\...
    if n >= 2 && path.get_char(0) == '.' && path.get_char(1) == '\\' {
        return PathStyle::Windows;
    }
    // Heuristic: contains backslash but no forward slash
    if str_has_char(path, '\\') && !str_has_char(path, '/') {
        return PathStyle::Windows;
    }
    PathStyle::Unix
}

/// Returns the separator character for a path style.
pub fn separator(style: PathStyle) -> (c: char)
    ensures
        c == separator_spec(style),
{
    match style {
        PathStyle::Unix => '/',
        PathStyle::Windows => '\\',
    }
}

} // verus!
