use shrinkpath::fs_aware::{git_root_start, git_root_step, GitRootStep};

/// Runs the upward walk for a git root with `git_dirs` standing for the
/// directories that hold `.git`.
fn walk(path: &str, is_file: bool, exists: bool, git_dirs: &[&str]) -> Option<String> {
    let mut current = git_root_start(path, is_file, exists)?;
    loop {
        let has_git = git_dirs.contains(&current.as_str());
        match git_root_step(&current, has_git) {
            GitRootStep::Ask(parent) => current = parent,
            GitRootStep::Done(name) => return name,
        }
    }
}

#[test]
fn git_root_found_from_nested_file() {
    assert_eq!(
        walk("/tmp/repo/src/deep/nested/main.rs", true, true, &["/tmp/repo"]),
        Some("repo".to_string())
    );
}

#[test]
fn git_root_found_beside_file() {
    assert_eq!(walk("/tmp/repo/file.txt", true, true, &["/tmp/repo"]), Some("repo".to_string()));
}

#[test]
fn git_root_nearest_wins() {
    assert_eq!(
        walk("/a/outer/inner/x.rs", true, true, &["/a/outer", "/a/outer/inner"]),
        Some("inner".to_string())
    );
}

#[test]
fn git_root_not_found() {
    assert_eq!(walk("/tmp/x/file.txt", true, true, &[]), None);
}

#[test]
fn git_root_at_filesystem_root_has_no_name() {
    assert_eq!(walk("/file.txt", true, true, &["/"]), None);
}

#[test]
fn git_root_start_points() {
    assert_eq!(git_root_start("/tmp/repo/main.rs", true, true), Some("/tmp/repo".to_string()));
    assert_eq!(git_root_start("/tmp/repo", false, true), Some("/tmp/repo".to_string()));
    assert_eq!(git_root_start("/tmp/repo/new.rs", false, false), Some("/tmp/repo".to_string()));
    assert_eq!(git_root_start("/", true, true), None);
}

#[test]
fn git_root_steps() {
    assert!(matches!(git_root_step("/tmp/repo", true), GitRootStep::Done(Some(n)) if n == "repo"));
    assert!(matches!(git_root_step("/", true), GitRootStep::Done(None)));
    assert!(matches!(git_root_step("/tmp/repo", false), GitRootStep::Ask(p) if p == "/tmp"));
    assert!(matches!(git_root_step("/", false), GitRootStep::Done(None)));
}
