use wildside::fs::{PathPart, base_dir_and_relative, parent_dir_plan, split_parts};

fn pair(a: &str, b: &str) -> (String, String) {
    (a.to_string(), b.to_string())
}

#[test]
fn absolute_paths_split_at_the_root() {
    assert_eq!(base_dir_and_relative("/tmp/data"), pair("/", "tmp/data"));
    assert_eq!(base_dir_and_relative("/tmp/wildside/out"), pair("/", "tmp/wildside/out"));
    assert_eq!(base_dir_and_relative("//srv/x"), pair("/", "srv/x"));
    assert_eq!(base_dir_and_relative("/"), pair("/", ""));
}

#[test]
fn relative_parts_keep_the_text_below_the_root() {
    assert_eq!(base_dir_and_relative("/tmp/"), pair("/", "tmp"));
    assert_eq!(base_dir_and_relative("/./tmp"), pair("/", "tmp"));
    assert_eq!(base_dir_and_relative("/tmp/./"), pair("/", "tmp"));
    assert_eq!(base_dir_and_relative("/a/../b"), pair("/", "a/../b"));
    assert_eq!(base_dir_and_relative("/tmp//a"), pair("/", "tmp//a"));
    assert_eq!(base_dir_and_relative("/tmp/./a"), pair("/", "tmp/./a"));
}

#[test]
fn relative_paths_resolve_from_the_current_directory() {
    assert_eq!(base_dir_and_relative("nested/dir"), pair(".", "nested/dir"));
    assert_eq!(base_dir_and_relative(""), pair(".", ""));
}

fn reading(parts: &[(PathPart, &str)]) -> Vec<(PathPart, String)> {
    parts.iter().map(|(part, rest)| (part.clone(), rest.to_string())).collect()
}

#[test]
fn windows_prefixes_become_the_base_directory() {
    let drive = reading(&[
        (PathPart::Prefix("C:".to_string()), "\\temp\\out"),
        (PathPart::Root, "temp\\out"),
        (PathPart::Normal("temp".to_string()), "out"),
        (PathPart::Normal("out".to_string()), ""),
    ]);
    assert_eq!(split_parts("C:\\temp\\out", &drive, '\\'), pair("C:\\", "temp\\out"));
    let drive_relative = reading(&[
        (PathPart::Prefix("C:".to_string()), "temp"),
        (PathPart::Normal("temp".to_string()), ""),
    ]);
    assert_eq!(split_parts("C:temp", &drive_relative, '\\'), pair("C:\\", "temp"));
    let unc = reading(&[
        (PathPart::Prefix("\\\\server\\share".to_string()), "\\dir"),
        (PathPart::Root, "dir"),
        (PathPart::Normal("dir".to_string()), ""),
    ]);
    assert_eq!(
        split_parts("\\\\server\\share\\dir", &unc, '\\'),
        pair("\\\\server\\share\\", "dir")
    );
    let drive_root = reading(&[(PathPart::Prefix("C:".to_string()), "\\"), (PathPart::Root, "")]);
    assert_eq!(split_parts("C:\\", &drive_root, '\\'), pair("C:\\", ""));
}

#[test]
fn split_parts_follows_the_components() {
    let root = reading(&[
        (PathPart::Root, "a/.."),
        (PathPart::Normal("a".to_string()), ".."),
        (PathPart::ParentDir, ""),
    ]);
    assert_eq!(split_parts("/a/..", &root, '/'), pair("/", "a/.."));
    let relative = reading(&[(PathPart::CurDir, "a"), (PathPart::Normal("a".to_string()), "")]);
    assert_eq!(split_parts("./a", &relative, '/'), pair(".", "./a"));
}

#[test]
fn parent_directories_are_only_created_when_needed() {
    assert_eq!(parent_dir_plan(None), None);
    assert_eq!(parent_dir_plan(Some("")), None);
    assert_eq!(parent_dir_plan(Some("/")), None);
    assert_eq!(parent_dir_plan(Some("//")), None);
    assert_eq!(parent_dir_plan(Some("/tmp/a")), Some(pair("/", "tmp/a")));
    assert_eq!(parent_dir_plan(Some("nested")), Some(pair(".", "nested")));
}
