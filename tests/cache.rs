use treefmt::eval_cache::hex_string;
use treefmt::eval_cache::{get_manifest_path, CacheManifest, FormatterInfo, FormatterProbe};
use treefmt::meta::{FileEntry, FormatterMatches, FormatterName};
use treefmt::FileMeta;

fn meta(mtime: i64, size: u64) -> FileMeta {
    FileMeta { mtime, size }
}

fn entry(path: &str, m: FileMeta) -> FileEntry {
    FileEntry { path: path.to_string(), meta: m }
}

fn matches(name: &str, files: Vec<FileEntry>) -> FormatterMatches {
    FormatterMatches { name: FormatterName::new(name), files }
}

fn info(work_dir: &str, options: &[&str]) -> FormatterInfo {
    FormatterInfo {
        command: "/bin/fmt".to_string(),
        command_resolved: "/usr/bin/fmt".to_string(),
        options: options.iter().map(|s| s.to_string()).collect(),
        work_dir: work_dir.to_string(),
        command_meta: meta(1, 10),
        command_resolved_meta: meta(1, 10),
    }
}

fn probe(name: &str, i: Option<FormatterInfo>) -> FormatterProbe {
    FormatterProbe { name: FormatterName::new(name), info: i }
}

fn files_of<'a>(cache: &'a CacheManifest, name: &str) -> Option<&'a Vec<FileEntry>> {
    cache.matches.iter().rev().find(|m| m.name.as_str() == name).map(|m| &m.files)
}

fn cache_with_two() -> CacheManifest {
    let mut cache = CacheManifest::new();
    cache.update_formatters(vec![
        probe("nix", Some(info("/tree", &[]))),
        probe("python", Some(info("/tree", &[]))),
    ]);
    cache.add_results(vec![
        matches("nix", vec![entry("/tree/b.nix", meta(5, 50))]),
        matches("python", vec![entry("/tree/a.py", meta(3, 30))]),
    ]);
    cache
}

#[test]
fn empty_cache_keeps_everything() {
    let cache = CacheManifest::new();
    let m = vec![matches("python", vec![entry("/tree/a.py", meta(1, 1))])];
    let r = cache.filter_matches(m.clone());
    assert_eq!(r, m);
}

#[test]
fn filter_drops_unchanged_keeps_changed_and_new() {
    let cache = cache_with_two();
    let r = cache.filter_matches(vec![matches(
        "python",
        vec![
            entry("/tree/a.py", meta(3, 30)),
            entry("/tree/c.py", meta(3, 30)),
            entry("/tree/a2.py", meta(3, 31)),
        ],
    )]);
    assert_eq!(r.len(), 1);
    assert_eq!(
        r[0].files,
        vec![entry("/tree/c.py", meta(3, 30)), entry("/tree/a2.py", meta(3, 31))]
    );
    let r = cache.filter_matches(vec![matches("python", vec![entry("/tree/a.py", meta(4, 30))])]);
    assert_eq!(r[0].files, vec![entry("/tree/a.py", meta(4, 30))]);
}

#[test]
fn second_filter_after_recording_is_empty() {
    let mut cache = CacheManifest::new();
    let m = vec![
        matches("nix", vec![entry("/tree/b.nix", meta(5, 50))]),
        matches("python", vec![entry("/tree/a.py", meta(3, 30)), entry("/tree/d.py", meta(4, 1))]),
    ];
    let first = cache.filter_matches(m.clone());
    assert_eq!(first, m);
    cache.add_results(first);
    let second = cache.filter_matches(m);
    assert_eq!(second.len(), 2);
    assert!(second.iter().all(|f| f.files.is_empty()));
}

#[test]
fn add_results_overwrites_and_inserts() {
    let mut cache = cache_with_two();
    cache.add_results(vec![matches(
        "python",
        vec![entry("/tree/a.py", meta(9, 90)), entry("/tree/e.py", meta(2, 2))],
    )]);
    let files = files_of(&cache, "python").unwrap();
    assert_eq!(files, &vec![entry("/tree/a.py", meta(9, 90)), entry("/tree/e.py", meta(2, 2))]);
    assert_eq!(files_of(&cache, "nix").unwrap(), &vec![entry("/tree/b.nix", meta(5, 50))]);
}

#[test]
fn drift_in_options_or_work_dir_invalidates_that_formatter_only() {
    let mut cache = cache_with_two();
    cache.update_formatters(vec![
        probe("nix", Some(info("/tree", &[]))),
        probe("python", Some(info("/tree", &["--fast"]))),
    ]);
    assert!(files_of(&cache, "python").is_none());
    assert_eq!(files_of(&cache, "nix").unwrap(), &vec![entry("/tree/b.nix", meta(5, 50))]);

    let mut cache = cache_with_two();
    cache.update_formatters(vec![
        probe("nix", Some(info("/tree/sub", &[]))),
        probe("python", Some(info("/tree", &[]))),
    ]);
    assert!(files_of(&cache, "nix").is_none());
    assert_eq!(files_of(&cache, "python").unwrap(), &vec![entry("/tree/a.py", meta(3, 30))]);
}

#[test]
fn removed_formatter_is_pruned() {
    let mut cache = cache_with_two();
    cache.update_formatters(vec![probe("python", Some(info("/tree", &[])))]);
    assert!(files_of(&cache, "nix").is_none());
    assert!(cache.formatters.iter().all(|r| r.name.as_str() != "nix"));
    assert!(files_of(&cache, "python").is_some());
}

#[test]
fn formatter_without_fingerprint_is_pruned() {
    let mut cache = cache_with_two();
    cache.update_formatters(vec![probe("nix", None), probe("python", Some(info("/tree", &[])))]);
    assert!(files_of(&cache, "nix").is_none());
    assert_eq!(cache.formatters.len(), 1);
}

#[test]
fn manifest_path_is_hex_sha1_of_config_path() {
    let p = get_manifest_path("/cache/eval-cache", "/home/user/project/treefmt.toml");
    assert_eq!(p, "/cache/eval-cache/70f96d44c85a12982990b724c64dbe2e86c802c0.toml");
}

#[test]
fn formatter_names_display() {
    let n = FormatterName::new("python");
    assert_eq!(n.display_name(), "#python");
    assert_eq!(n.as_str(), "python");
}

#[test]
fn hex_writes_two_lower_digits_per_byte() {
    assert_eq!(hex_string(&vec![0x00, 0x0f, 0xa5, 0xff]), "000fa5ff");
    assert_eq!(hex_string(&vec![]), "");
}

#[test]
fn recording_only_the_filtered_files_still_empties_the_next_filter() {
    let mut cache = cache_with_two();
    let m = vec![
        matches("nix", vec![entry("/tree/b.nix", meta(5, 50))]),
        matches("python", vec![entry("/tree/a.py", meta(3, 30)), entry("/tree/new.py", meta(1, 1))]),
    ];
    let first = cache.filter_matches(m.clone());
    assert_eq!(first[1].files, vec![entry("/tree/new.py", meta(1, 1))]);
    cache.add_results(first);
    assert!(cache.filter_matches(m).iter().all(|f| f.files.is_empty()));
}
