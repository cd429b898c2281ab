use treefmt::config::first_existing;
use treefmt::cli::{parse_path, FSScan};
use treefmt::config::{candidate_paths, cwd, FmtConfig, GlobalConfig, FILENAME, FILENAMEALT};
use treefmt::is_absolute;

fn read_global(text: &str) -> GlobalConfig {
    let table: toml::Table = toml::from_str(text).unwrap();
    let excludes = table.get("excludes").map(|v| {
        v.as_array()
            .unwrap()
            .iter()
            .map(|s| s.as_str().unwrap().to_string())
            .collect::<Vec<String>>()
    });
    GlobalConfig::from_fields(excludes)
}

#[test]
fn test_cwd() {
    assert_eq!(true, !is_absolute(&cwd()));
    assert_eq!(".", cwd().as_str());
}

#[test]
fn test_global_config() {
    // default
    let toml = "";
    assert_eq!(GlobalConfig { excludes: vec![] }, read_global(toml));

    // parses correctly
    let toml = r#"
        excludes = ["foo", "bar", "baz"]
        "#;
    let excludes: Vec<String> = ["foo", "bar", "baz"].map(String::from).to_vec();
    let expected = GlobalConfig { excludes };
    assert_eq!(expected, read_global(toml))
}

#[test]
fn fmt_config_defaults() {
    let cfg = FmtConfig::from_fields("sh".to_string(), None, None, None, None);
    assert_eq!(cfg.command, "sh");
    assert_eq!(cfg.work_dir, ".");
    assert!(cfg.options.is_empty());
    assert!(cfg.includes.is_empty());
    assert!(cfg.excludes.is_empty());

    let cfg = FmtConfig::from_fields(
        "sh".to_string(),
        Some("/foo/bar".to_string()),
        Some(vec!["foo".to_string()]),
        Some(vec!["*.sh".to_string()]),
        Some(vec!["x".to_string()]),
    );
    assert_eq!(cfg.work_dir, "/foo/bar");
    assert_eq!(cfg.options, vec!["foo"]);
    assert_eq!(cfg.includes, vec!["*.sh"]);
    assert_eq!(cfg.excludes, vec!["x"]);
}

#[test]
fn candidates_walk_up_to_the_root() {
    assert_eq!(FILENAME, "treefmt.toml");
    assert_eq!(FILENAMEALT, ".treefmt.toml");
    let c = candidate_paths("/a/b");
    assert_eq!(
        c,
        vec![
            "/a/b/treefmt.toml",
            "/a/b/.treefmt.toml",
            "/a/treefmt.toml",
            "/a/.treefmt.toml",
            "/treefmt.toml",
            "/.treefmt.toml",
        ]
    );
}

#[test]
fn parse_path_is_absolute_and_clean() {
    assert_eq!(parse_path("foo/../bar", "/home/me"), "/home/me/bar");
    assert_eq!(parse_path("/etc/./x", "/home/me"), "/etc/x");
    assert_eq!(parse_path(".", "/home/me"), "/home/me");
}

#[test]
fn fs_scan_names() {
    assert_eq!(FSScan::parse("stat"), Ok(FSScan::Stat));
    assert_eq!(FSScan::parse("watchman"), Ok(FSScan::Watchman));
    assert_eq!(FSScan::parse("auto"), Ok(FSScan::Auto));
    assert_eq!(
        FSScan::parse("inotify"),
        Err("Unknown file-system scan method: inotify".to_string())
    );
    let parsed: FSScan = "auto".parse().unwrap();
    assert_eq!(parsed, FSScan::Auto);
}

#[test]
fn first_existing_candidate_wins() {
    let c = vec!["/a/treefmt.toml".to_string(), "/a/.treefmt.toml".to_string(), "/treefmt.toml".to_string()];
    assert_eq!(first_existing(&c, &vec![false, true]), Some("/a/.treefmt.toml".to_string()));
    assert_eq!(first_existing(&c, &vec![true]), Some("/a/treefmt.toml".to_string()));
    assert_eq!(first_existing(&c, &vec![false, false, false]), None);
    assert_eq!(first_existing(&c, &vec![]), None);
}
