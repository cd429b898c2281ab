use treefmt::engine::{cache_policy, record_run};
use treefmt::config::{FmtConfig, FormatterSection, GlobalConfig, Root};
use treefmt::engine::{
    assemble_formatters, changes_to_entries, collect_matches, conclude, diff_matches, fold_runs,
    matching_formatters, path_chunks, select_paths, watchman_queries, ChangedFile, DisplayType,
    FormatterQuery, FormatterRun, LoadError, RunError, Statistics, CHUNK_SIZE,
};
use treefmt::eval_cache::CacheManifest;
use treefmt::formatter::{Formatter, FormatterError};
use treefmt::meta::{FileEntry, FormatterMatches, FormatterName};
use treefmt::FileMeta;

fn mk_file_meta(mtime: i64, size: u64) -> FileMeta {
    FileMeta { mtime, size }
}

fn entry(path: &str, m: FileMeta) -> FileEntry {
    FileEntry { path: path.to_string(), meta: m }
}

fn strings(v: &[&str]) -> Vec<String> {
    v.iter().map(|s| s.to_string()).collect()
}

fn section(name: &str, command: &str, options: &[&str], includes: &[&str], excludes: &[&str]) -> FormatterSection {
    let cfg = FmtConfig::from_fields(
        command.to_string(),
        None,
        Some(strings(options)),
        Some(strings(includes)),
        Some(strings(excludes)),
    );
    FormatterSection { name: name.to_string(), config: cfg }
}

fn formatter(tree_root: &str, name: &str, includes: &[&str], excludes: &[&str]) -> Formatter {
    let sec = section(name, name, &[], includes, excludes);
    Formatter::from_resolved(tree_root, name, &sec.config, Some(format!("/bin/{name}"))).unwrap()
}

fn with_files(files: &[&str], metas: &[FileMeta]) -> Vec<FileEntry> {
    metas.iter().zip(files.iter()).map(|(m, name)| entry(name, *m)).collect()
}

#[test]
fn test_diff_matches_no_changes_no_files() {
    let new_matches = Vec::new();
    let matches = Vec::new();
    let mut stats = Statistics::init();

    let result = diff_matches(new_matches, matches, &mut stats);

    assert_eq!(result.len(), 0);
    assert_eq!(stats.reformatted_files, 0);
}

#[test]
fn test_diff_matches_no_changes() {
    let metadata = [mk_file_meta(0, 0), mk_file_meta(1, 1), mk_file_meta(2, 2), mk_file_meta(3, 3)];
    let files = ["test", "test1", "test2", "test3"];
    let file_metadata = with_files(&files, &metadata);
    let mut stats = Statistics::init();

    let new_matches = vec![
        FormatterMatches { name: FormatterName::new("gofmt"), files: file_metadata.clone() },
        FormatterMatches { name: FormatterName::new("rustfmt"), files: file_metadata.clone() },
    ];
    let matches = vec![
        FormatterMatches { name: FormatterName::new("gofmt"), files: file_metadata.clone() },
        FormatterMatches { name: FormatterName::new("rustfmt"), files: file_metadata },
    ];

    let result = diff_matches(new_matches, matches, &mut stats);

    assert_eq!(result.len(), 2);
    assert_eq!(stats.reformatted_files, 0);
}

#[test]
fn test_diff_matches_with_changes() {
    let metadata = [mk_file_meta(0, 0), mk_file_meta(1, 1), mk_file_meta(2, 2), mk_file_meta(3, 3)];
    let metadata_gofmt = [mk_file_meta(0, 0), mk_file_meta(2, 1), mk_file_meta(2, 2), mk_file_meta(5, 3)];
    let metadata_rustfmt = [mk_file_meta(0, 0), mk_file_meta(1, 1), mk_file_meta(3, 2), mk_file_meta(3, 3)];
    let files = ["test", "test1", "test2", "test3"];
    let mut stats = Statistics::init();

    let new_matches = vec![
        FormatterMatches { name: FormatterName::new("gofmt"), files: with_files(&files, &metadata) },
        FormatterMatches { name: FormatterName::new("rustfmt"), files: with_files(&files, &metadata) },
    ];
    let matches = vec![
        FormatterMatches { name: FormatterName::new("gofmt"), files: with_files(&files, &metadata_gofmt) },
        FormatterMatches { name: FormatterName::new("rustfmt"), files: with_files(&files, &metadata_rustfmt) },
    ];

    let result = diff_matches(new_matches, matches, &mut stats);

    assert_eq!(result.len(), 2);
    assert_eq!(stats.reformatted_files, 3);
    assert_eq!(result[0].paths, vec!["test1", "test3"]);
    assert_eq!(result[1].paths, vec!["test2"]);
}

fn three_formatters() -> Root {
    Root {
        global: None,
        formatter: vec![
            section("elm", "/tmp/t/elm-fmt", &["--yes"], &["*.elm"], &[]),
            section("nix", "/tmp/t/nixpkgs-fmt", &[], &["*.nix"], &[]),
            section("python", "/tmp/t/black", &[], &["*.py"], &[]),
        ],
    }
}

fn two_formatters() -> Root {
    Root {
        global: None,
        formatter: vec![
            section("nix", "/tmp/t/nixpkgs-fmt", &[], &["*.nix"], &[]),
            section("python", "/tmp/t/black", &[], &["*.py"], &[]),
        ],
    }
}

#[test]
fn test_formatter_loading_some() {
    let commands = vec![Some("/tmp/t/nixpkgs-fmt".to_string()), Some("/tmp/t/black".to_string())];
    let formatters = assemble_formatters(&two_formatters(), "/tmp/t", false, &None, &commands).unwrap();
    assert_eq!(formatters.len(), 2);
}

#[test]
#[should_panic]
fn test_formatter_loading_some_missing_formatter() {
    // black is the missing formatter here
    let commands = vec![Some("/tmp/t/nixpkgs-fmt".to_string()), None];
    assemble_formatters(&two_formatters(), "/tmp/t", false, &None, &commands).unwrap();
}

#[test]
fn test_formatter_loading_some_missing_formatter_allowed() {
    let commands = vec![Some("/tmp/t/nixpkgs-fmt".to_string()), None];
    let formatters = assemble_formatters(&two_formatters(), "/tmp/t", true, &None, &commands).unwrap();
    assert_eq!(formatters.len(), 1);
}

#[test]
#[should_panic]
fn test_formatter_loading_missing_includes() {
    let root = Root {
        global: None,
        formatter: vec![
            section("nix", "nixpkgs-fmt", &[], &[], &[]),
            section("python", "black", &[], &["*.py"], &[]),
        ],
    };
    let commands = vec![Some("/usr/bin/nixpkgs-fmt".to_string()), Some("/usr/bin/black".to_string())];
    assemble_formatters(&root, "/tmp/t", false, &None, &commands).unwrap();
}

#[test]
fn test_formatter_loading_selected_allow_missing() {
    let commands = vec![
        Some("/tmp/t/elm-fmt".to_string()),
        Some("/tmp/t/nixpkgs-fmt".to_string()),
        Some("/tmp/t/black".to_string()),
    ];
    let selected_formatters = Some(strings(&["python", "nix", "gofmt"]));
    let formatters = assemble_formatters(&three_formatters(), "/tmp/t", true, &selected_formatters, &commands).unwrap();
    assert_eq!(formatters.len(), 2);
}

#[test]
#[should_panic]
fn test_formatter_loading_selected_missing() {
    let commands = vec![
        Some("/tmp/t/elm-fmt".to_string()),
        Some("/tmp/t/nixpkgs-fmt".to_string()),
        Some("/tmp/t/black".to_string()),
    ];
    // Selecting a different formatter
    let selected_formatters = Some(strings(&["python", "nix", "gofmt"]));
    assemble_formatters(&three_formatters(), "/tmp/t", false, &selected_formatters, &commands).unwrap();
}

#[test]
fn loading_errors() {
    let commands = vec![Some("/tmp/t/nixpkgs-fmt".to_string()), None];
    assert_eq!(
        assemble_formatters(&two_formatters(), "/tmp/t", false, &None, &commands).err(),
        Some(LoadError::MissingFormatter)
    );
    let cfg = FmtConfig::from_fields("black".to_string(), None, None, None, None);
    assert_eq!(
        Formatter::from_resolved("/t", "python", &cfg, Some("/bin/black".to_string())).err(),
        Some(FormatterError::MissingIncludes)
    );
    let cfg = FmtConfig::from_fields("black".to_string(), None, None, Some(strings(&["*.py"])), None);
    assert_eq!(Formatter::from_resolved("/t", "python", &cfg, None).err(), Some(FormatterError::BinaryNotFound));
    let cfg = FmtConfig::from_fields("black".to_string(), None, None, Some(strings(&["a[.py"])), None);
    assert_eq!(
        Formatter::from_resolved("/t", "python", &cfg, Some("/bin/black".to_string())).err(),
        Some(FormatterError::InvalidPattern)
    );
}

#[test]
fn loaded_formatter_fields() {
    let root = Root {
        global: Some(GlobalConfig { excludes: strings(&["*secret*"]) }),
        formatter: vec![section("elm", "elm-fmt", &["--yes"], &["*.elm"], &["vendor/x.elm"])],
    };
    let commands = vec![Some("/bin/elm-fmt".to_string())];
    let fs = assemble_formatters(&root, "/tree", false, &None, &commands).unwrap();
    let f = &fs[0];
    assert_eq!(f.name.as_str(), "elm");
    assert_eq!(f.command, "/bin/elm-fmt");
    assert_eq!(f.options, vec!["--yes"]);
    assert_eq!(f.work_dir, "/tree");
    assert_eq!(f.excludes_str, vec!["vendor/x.elm", "*secret*"]);
    assert_eq!(f.command_args(&strings(&["/tree/a.elm"])), vec!["--yes", "/tree/a.elm"]);
    assert!(f.is_match("/tree/a.elm"));
    assert!(!f.is_match("/tree/vendor/x.elm"));
    assert!(!f.is_match("/tree/my_secret.elm"));
    assert!(!f.is_match("/elsewhere/a.elm"));
}

#[test]
fn disjoint_includes_partition_and_overlaps_all_match() {
    let fs = vec![
        formatter("/tree", "python", &["*.py"], &[]),
        formatter("/tree", "nix", &["*.nix"], &[]),
        formatter("/tree", "lint", &["*.py", "*.nix"], &[]),
    ];
    assert_eq!(matching_formatters(&fs, "/tree/a.py"), vec![0, 2]);
    assert_eq!(matching_formatters(&fs, "/tree/b.nix"), vec![1, 2]);
    assert_eq!(matching_formatters(&fs, "/tree/c.rs"), Vec::<usize>::new());
}

#[test]
fn reformatted_iff_meta_differs() {
    let mut stats = Statistics::init();
    let pre = vec![FormatterMatches { name: FormatterName::new("f"), files: vec![entry("/t/a", mk_file_meta(1, 1))] }];
    let same = vec![FormatterMatches { name: FormatterName::new("f"), files: vec![entry("/t/a", mk_file_meta(1, 1))] }];
    assert!(diff_matches(same, pre.clone(), &mut stats)[0].paths.is_empty());
    let newer = vec![FormatterMatches { name: FormatterName::new("f"), files: vec![entry("/t/a", mk_file_meta(2, 1))] }];
    assert_eq!(diff_matches(newer, pre.clone(), &mut stats)[0].paths, vec!["/t/a"]);
    let bigger = vec![FormatterMatches { name: FormatterName::new("f"), files: vec![entry("/t/a", mk_file_meta(1, 2))] }];
    assert_eq!(diff_matches(bigger, pre, &mut stats)[0].paths, vec!["/t/a"]);
    assert_eq!(stats.reformatted_files, 1);
}

fn scenario_formatters() -> Vec<Formatter> {
    let root = Root {
        global: None,
        formatter: vec![
            section("nix", "nixpkgs-fmt", &[], &["*.nix"], &[]),
            section("python", "black", &[], &["*.py"], &[]),
        ],
    };
    let commands = vec![Some("/bin/nixpkgs-fmt".to_string()), Some("/bin/black".to_string())];
    assemble_formatters(&root, "/tree", false, &None, &commands).unwrap()
}

#[test]
fn two_runs_format_then_skip() {
    let formatters = scenario_formatters();
    let mut cache = CacheManifest::new();
    let walked = vec![entry("/tree/a.py", mk_file_meta(10, 5)), entry("/tree/b.nix", mk_file_meta(10, 7))];

    // first run: empty cache, both files are formatted
    let mut stats = Statistics::init();
    let found = collect_matches(&walked, &formatters, &mut stats);
    assert_eq!(stats.traversed_files, 2);
    assert_eq!(stats.matched_files, 2);
    let pending = cache.filter_matches(found);
    assert_eq!(pending.iter().map(|m| m.files.len()).sum::<usize>(), 2);
    let post: Vec<FormatterMatches> = pending
        .iter()
        .map(|m| FormatterMatches {
            name: m.name.clone(),
            files: m.files.iter().map(|e| entry(&e.path, mk_file_meta(11, e.meta.size + 1))).collect(),
        })
        .collect();
    cache.add_results(post.clone());
    let recorded: usize = cache.matches.iter().map(|m| m.files.len()).sum();
    assert_eq!(recorded, 2);
    diff_matches(post.clone(), pending, &mut stats);
    assert_eq!(stats.reformatted_files, 2);

    // second run: nothing changed on disk since
    let mut stats = Statistics::init();
    let walked: Vec<FileEntry> = post.iter().flat_map(|m| m.files.clone()).collect();
    let found = collect_matches(&walked, &formatters, &mut stats);
    let pending = cache.filter_matches(found);
    assert!(pending.iter().all(|m| m.files.is_empty()));
    let changed = diff_matches(pending.clone(), pending, &mut stats);
    assert!(changed.iter().all(|c| c.paths.is_empty()));
    assert_eq!(stats.reformatted_files, 0);
}

#[test]
fn global_exclude_is_never_matched() {
    let root = Root {
        global: Some(GlobalConfig { excludes: strings(&["*secret*"]) }),
        formatter: vec![section("python", "black", &[], &["*.py"], &[])],
    };
    let fs = assemble_formatters(&root, "/tree", false, &None, &vec![Some("/bin/black".to_string())]).unwrap();
    assert!(!fs[0].is_match("/tree/secret.py"));
    assert!(fs[0].is_match("/tree/public.py"));
    let mut stats = Statistics::init();
    let found = collect_matches(&vec![entry("/tree/secret.py", mk_file_meta(1, 1))], &fs, &mut stats);
    assert!(found[0].files.is_empty());
    let mut cache = CacheManifest::new();
    cache.add_results(vec![FormatterMatches {
        name: FormatterName::new("python"),
        files: vec![entry("/tree/secret.py", mk_file_meta(0, 0))],
    }]);
    assert!(cache.filter_matches(found)[0].files.is_empty());
}

#[test]
fn local_exclude_is_never_matched() {
    let fs = vec![formatter("/tree", "python", &["*.py"], &["test.py"])];
    assert!(!fs[0].is_match("/tree/test.py"));
    assert!(!fs[0].is_match("/tree/sub/test.py"));
    assert!(fs[0].is_match("/tree/main.py"));
}

#[test]
fn fail_on_change_fails_despite_clean_exit() {
    let mut stats = Statistics::init();
    let pre = vec![FormatterMatches { name: FormatterName::new("python"), files: vec![entry("/tree/a.py", mk_file_meta(1, 10))] }];
    let runs = vec![FormatterRun {
        name: FormatterName::new("python"),
        result: Ok(vec![entry("/tree/a.py", mk_file_meta(2, 12))]),
    }];
    let (post, failures) = fold_runs(runs);
    assert!(failures.is_empty());
    diff_matches(post, pre, &mut stats);
    assert_eq!(stats.reformatted_files, 1);
    assert_eq!(conclude(&mut stats, true, failures.len()), Err(RunError::FailOnChange));
    assert_eq!(stats.display, DisplayType::Long);

    let mut quiet = Statistics::init();
    quiet.set_reformatted_files(1);
    assert_eq!(conclude(&mut quiet, false, 0), Ok(()));
    assert_eq!(quiet.display, DisplayType::Summary);
}

#[test]
fn failures_are_collected_and_fail_the_run() {
    let runs = vec![
        FormatterRun { name: FormatterName::new("a"), result: Err("#a failed".to_string()) },
        FormatterRun { name: FormatterName::new("b"), result: Ok(vec![]) },
        FormatterRun { name: FormatterName::new("c"), result: Err("#c failed".to_string()) },
    ];
    let (ok, errs) = fold_runs(runs);
    assert_eq!(ok.len(), 1);
    assert_eq!(ok[0].name.as_str(), "b");
    assert_eq!(errs, vec!["#a failed", "#c failed"]);
    let mut stats = Statistics::init();
    assert_eq!(conclude(&mut stats, true, errs.len()), Err(RunError::FormatterFailed));
}

#[test]
fn chunks_cover_paths_in_order() {
    let files: Vec<FileEntry> = (0..2500).map(|i| entry(&format!("/t/{i}"), mk_file_meta(0, 0))).collect();
    let chunks = path_chunks(&files, CHUNK_SIZE);
    assert_eq!(chunks.len(), 3);
    assert_eq!(chunks[0].len(), 1024);
    assert_eq!(chunks[2].len(), 452);
    let flat: Vec<String> = chunks.concat();
    assert_eq!(flat, files.iter().map(|e| e.path.clone()).collect::<Vec<_>>());
    assert!(path_chunks(&vec![], 3).is_empty());
}

#[test]
fn paths_outside_the_tree_are_dropped() {
    let r = select_paths(&strings(&["src", "../other", "/tree/x/../y", "/etc"]), "/tree", "/tree");
    assert_eq!(r, vec!["/tree/src", "/tree/y"]);
}

#[test]
fn queries_for_the_notification_service() {
    let fs = vec![formatter("/tree", "python", &["*.py"], &[]), formatter("/tree", "nix", &["*.nix"], &["x.nix"])];
    let q = watchman_queries(&fs);
    assert_eq!(q[0], FormatterQuery::Any(strings(&["**/*.py"])));
    assert_eq!(q[1], FormatterQuery::AnyExcept(strings(&["**/*.nix"]), strings(&["**/x.nix"])));
}

#[test]
fn reported_changes_are_revalidated() {
    let fs = vec![formatter("/tree", "python", &["*.py"], &["skip.py"]), formatter("/tree", "lint", &["*.py"], &[])];
    let files = vec![
        ChangedFile { name: "a/x.py".to_string(), size: 3, mtime: 9 },
        ChangedFile { name: "b/y.py".to_string(), size: 4, mtime: 8 },
        ChangedFile { name: "a/skip.py".to_string(), size: 5, mtime: 7 },
    ];
    let entries = changes_to_entries(&files, "/tree", &strings(&["/tree/a"]));
    assert_eq!(entries, vec![entry("/tree/a/x.py", mk_file_meta(9, 3)), entry("/tree/a/skip.py", mk_file_meta(7, 5))]);
    let mut stats = Statistics::init();
    let found = collect_matches(&entries, &fs, &mut stats);
    assert_eq!(found[0].files, vec![entry("/tree/a/x.py", mk_file_meta(9, 3))]);
    assert_eq!(found[1].files.len(), 2);
}

#[test]
fn cache_policy_from_flags() {
    let p = cache_policy(false, false);
    assert!(p.load && p.use_cache);
    let p = cache_policy(false, true);
    assert!(!p.load && p.use_cache);
    let p = cache_policy(true, false);
    assert!(!p.load && !p.use_cache);
}

#[test]
fn recording_a_run() {
    let post = vec![FormatterMatches { name: FormatterName::new("f"), files: vec![entry("/t/a", mk_file_meta(2, 2))] }];
    let mut walked = CacheManifest::new();
    record_run(&mut walked, post.clone(), false, None);
    assert_eq!(walked.matches, post);
    let mut notified = CacheManifest::new();
    record_run(&mut notified, post, true, Some("c:1:2".to_string()));
    assert!(notified.matches.is_empty());
    assert_eq!(notified.clock, Some("c:1:2".to_string()));
}

#[test]
fn found_commands_are_cleaned_and_absolute() {
    assert_eq!(Formatter::absolute_command(Some("/usr/./bin/../bin/black".to_string())), Some("/usr/bin/black".to_string()));
    assert_eq!(Formatter::absolute_command(Some("bin/black".to_string())), None);
    assert_eq!(Formatter::absolute_command(None), None);
}

#[test]
fn lenient_loading_keeps_exactly_the_sections_that_load() {
    let commands = vec![None, Some("/tmp/t/nixpkgs-fmt".to_string()), Some("/tmp/t/black".to_string())];
    let selected = Some(strings(&["elm", "python"]));
    let fs = assemble_formatters(&three_formatters(), "/tmp/t", true, &selected, &commands).unwrap();
    assert_eq!(fs.len(), 1);
    assert_eq!(fs[0].name.as_str(), "python");
}
