use treefmt::config::FmtConfig;
use treefmt::formatter::Formatter;
use treefmt::paths::{is_within, join_path, parent_dir};
use treefmt::{expand_if_path, expand_path};

fn matching<'a>(paths: &[&'a str], pattern: &str) -> Vec<&'a str> {
    let pat = expand_if_path(pattern.to_string(), "/");
    let mut sum = globset::GlobSetBuilder::new();
    sum.add(globset::GlobBuilder::new(&pat).build().unwrap());
    let result = sum.build().unwrap();
    let cfg = FmtConfig::from_fields("sh".to_string(), None, None, Some(vec![pattern.to_string()]), None);
    let f = Formatter::from_resolved("/", "sh", &cfg, Some("/bin/sh".to_string())).unwrap();
    paths
        .iter()
        .copied()
        .filter(|p| {
            let hit = result.is_match(p);
            assert_eq!(hit, f.is_match(p));
            hit
        })
        .collect()
}

#[test]
fn test_expand_if_path_single_pattern() {
    let path = vec![
        "/Foo.hs",
        "/nested/Foo.hs",
        "/nested/nested_again/Foo.hs",
        "/different_folder/Foo.hs",
        "/nested/different_folder/Foo.hs",
    ];
    let test = matching(&path, "Foo.hs");
    assert_eq!(path, test);
}

#[test]
fn test_expand_if_path_wildcard() {
    let path = vec![
        "/Foo.hs",
        "/nested/Foo.hs",
        "/nested/nested_again/Foo.hs",
        "/different_folder/Foo.hs",
        "/nested/different_folder/Foo.hs",
        "/nested/Bar.hs",
        "/nested/different_folder/Bar.hs",
    ];
    let test = matching(&path, "*.hs");
    assert_eq!(path, test);
}

#[test]
fn test_expand_if_path_single_pattern_with_slash() {
    let path = vec![
        "/Foo.hs",
        "/nested/Foo.hs",
        "/nested/nested/Foo.hs",
        "/different_folder/Foo.hs",
        "/nested/different_folder/Foo.hs",
        "/nested/Bar.hs",
        "/nested/different_folder/Bar.hs",
    ];
    let test = matching(&path, "nested/Foo.hs");
    assert_eq!(vec!["/nested/Foo.hs"], test);
}

#[test]
fn expand_if_path_forms() {
    assert_eq!(expand_if_path("Foo.hs".to_string(), "/root"), "*/Foo.hs");
    assert_eq!(expand_if_path("src/Foo.hs".to_string(), "/root"), "/root/src/Foo.hs");
    assert_eq!(expand_if_path("/abs/../x.hs".to_string(), "/root"), "/x.hs");
}

#[test]
fn expand_path_cleans() {
    assert_eq!(expand_path("a/./b/../c", "/r"), "/r/a/c");
    assert_eq!(expand_path("/x//y/", "/r"), "/x/y");
    assert_eq!(expand_path("../..", "/r"), "/");
    assert_eq!(expand_path("", "/r/"), "/r");
}

#[test]
fn joins_and_parents() {
    assert_eq!(join_path("/a", "b"), "/a/b");
    assert_eq!(join_path("/a/", "b"), "/a/b");
    assert_eq!(join_path("", "b"), "b");
    assert_eq!(parent_dir("/a/b"), Some("/a".to_string()));
    assert_eq!(parent_dir("/a"), Some("/".to_string()));
    assert_eq!(parent_dir("/"), None);
    assert_eq!(parent_dir("a"), Some("".to_string()));
    assert_eq!(parent_dir(""), None);
}

#[test]
fn within_goes_by_whole_elements() {
    assert!(is_within("/a/b/c", "/a/b"));
    assert!(is_within("/a/b", "/a/b"));
    assert!(is_within("/a", "/"));
    assert!(!is_within("/a/bc", "/a/b"));
    assert!(!is_within("/a", "/a/b"));
}
