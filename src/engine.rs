//! The decisions of a formatting run: which paths to look at, which formatter takes
//! which file, what changed, and how the run ends.
use crate::config::{FmtConfig, FormatterSection, Root};
use crate::eval_cache::str_views;
use crate::formatter::Formatter;
use crate::glob::{expanded_patterns, patterns_compile};
use crate::glob::{any_glob_matches, glob_matches, glob_set_patterns};
use crate::eval_cache::{index_entries, merged_all, paths_distinct, CacheManifest};
use crate::meta::{find_formatter, match_map, ChangedFiles, FileEntry, FileMeta, FormatterMatches, FormatterName};
use crate::paths::{expand_path, expanded, expanded_pattern, is_abs, is_absolute, is_within, within};
use vstd::prelude::*;
use vstd::string::*;

verus! {

/// Controls how the information is displayed at the end of a run
#[derive(Debug, Clone, Copy, PartialEq, Eq, Structural)]
pub enum DisplayType {
    /// Just display some numbers
    Summary,
    /// Display the list of files that were affected
    Long,
}

/// Counters of a run.
#[derive(Debug, Clone, Copy, PartialEq, Eq, Structural)]
pub struct Statistics {
    /// How the summary is displayed
    pub display: DisplayType,
    /// Files seen by discovery
    pub traversed_files: usize,
    /// Pairs of a file and a formatter that accepts it
    pub matched_files: usize,
    /// Files left to format once the cache has been consulted
    pub filtered_files: usize,
    /// Files whose metadata changed while formatting
    pub reformatted_files: usize,
}

/// `a + b`, held at the largest `usize`.
pub open spec fn sat_add(a: int, b: int) -> int {
    if a + b > usize::MAX {
        usize::MAX as int
    } else {
        a + b
    }
}

/// The total number of files over a match set.
pub open spec fn total_files(s: Seq<FormatterMatches>) -> int
    decreases s.len(),
{
    if s.len() == 0 {
        0
    } else {
        total_files(s.drop_last()) + s.last().files@.len()
    }
}

/// The total number of paths over a list of changes.
pub open spec fn total_changed(s: Seq<ChangedFiles>) -> int
    decreases s.len(),
{
    if s.len() == 0 {
        0
    } else {
        total_changed(s.drop_last()) + s.last().paths@.len()
    }
}

impl Statistics {
    /// Counters at zero, with the short summary.
    pub fn init() -> (r: Statistics)
        ensures
            r.display == DisplayType::Summary,
            r.traversed_files == 0,
            r.matched_files == 0,
            r.filtered_files == 0,
            r.reformatted_files == 0,
    {
        Statistics {
            display: DisplayType::Summary,
            traversed_files: 0,
            matched_files: 0,
            filtered_files: 0,
            reformatted_files: 0,
        }
    }

    /// Records the number of files left to format.
    pub fn set_filtered_files(&mut self, filtered_files: usize)
        ensures
            *final(self) == (Statistics { filtered_files, ..*old(self) }),
    {
        self.filtered_files = filtered_files;
    }

    /// Records the number of files that changed.
    pub fn set_reformatted_files(&mut self, reformatted_files: usize)
        ensures
            *final(self) == (Statistics { reformatted_files, ..*old(self) }),
    {
        self.reformatted_files = reformatted_files;
    }
}

/// Counts the files over a match set, held at the largest `usize`.
pub fn count_files(s: &Vec<FormatterMatches>) -> (r: usize)
    ensures
        r as int == sat_add(total_files(s@), 0),
{
    let mut n: usize = 0;
    let mut i: usize = 0;
    while i < s.len()
        invariant
            i <= s@.len(),
            n as int == sat_add(total_files(s@.take(i as int)), 0),
            total_files(s@.take(i as int)) >= 0,
        decreases s@.len() - i,
    {
        assert(s@.take(i + 1).drop_last() =~= s@.take(i as int));
        n = n.saturating_add(s[i].files.len());
        i = i + 1;
    }
    assert(s@.take(s@.len() as int) =~= s@);
    n
}

/// The given paths made absolute against the working directory, keeping those that lie
/// within the tree root, in order.
pub open spec fn selected_paths(paths: Seq<String>, work_dir: Seq<char>, tree_root: Seq<char>) -> Seq<Seq<char>>
    decreases paths.len(),
{
    if paths.len() == 0 {
        Seq::empty()
    } else {
        let rest = selected_paths(paths.drop_last(), work_dir, tree_root);
        let p = expanded(paths.last()@, work_dir);
        if within(p, tree_root) {
            rest.push(p)
        } else {
            rest
        }
    }
}

/// Makes all the given paths absolute, and drops those that point outside of the
/// project root.
pub fn select_paths(paths: &Vec<String>, work_dir: &str, tree_root: &str) -> (r: Vec<String>)
    ensures
        r@.map_values(|s: String| s@) == selected_paths(paths@, work_dir@, tree_root@),
{
    let mut out: Vec<String> = Vec::new();
    let mut i: usize = 0;
    while i < paths.len()
        invariant
            i <= paths@.len(),
            out@.map_values(|s: String| s@) == selected_paths(paths@.take(i as int), work_dir@, tree_root@),
        decreases paths@.len() - i,
    {
        assert(paths@.take(i + 1).drop_last() =~= paths@.take(i as int));
        let p = expand_path(paths[i].as_str(), work_dir);
        let ghost before = out@;
        if is_within(p.as_str(), tree_root) {
            out.push(p);
            assert(out@.map_values(|s: String| s@) =~= before.map_values(|s: String| s@).push(out@.last()@));
        }
        i = i + 1;
    }
    assert(paths@.take(paths@.len() as int) =~= paths@);
    out
}

/// The entries that formatter `f` takes: absolute paths that it accepts, in order.
pub open spec fn accepted_entries(f: Formatter, s: Seq<FileEntry>) -> Seq<FileEntry>
    decreases s.len(),
{
    if s.len() == 0 {
        s
    } else if is_abs(s.last().path@) && f.accepts(s.last().path@) {
        accepted_entries(f, s.drop_last()).push(s.last())
    } else {
        accepted_entries(f, s.drop_last())
    }
}

/// The entries that formatter `f` takes.
fn accepted_by(f: &Formatter, entries: &Vec<FileEntry>) -> (r: Vec<FileEntry>)
    ensures
        r@ == accepted_entries(*f, entries@),
{
    let mut out: Vec<FileEntry> = Vec::new();
    let mut i: usize = 0;
    while i < entries.len()
        invariant
            i <= entries@.len(),
            out@ == accepted_entries(*f, entries@.take(i as int)),
        decreases entries@.len() - i,
    {
        assert(entries@.take(i + 1).drop_last() =~= entries@.take(i as int));
        if is_absolute(entries[i].path.as_str()) && f.is_match(entries[i].path.as_str()) {
            out.push(entries[i].clone());
        }
        i = i + 1;
    }
    assert(entries@.take(entries@.len() as int) =~= entries@);
    out
}

/// Pairs every discovered file with every formatter that accepts it: one entry per
/// formatter, in order, holding the files it accepts. Several formatters may take the
/// same file.
pub fn collect_matches(entries: &Vec<FileEntry>, formatters: &Vec<Formatter>, stats: &mut Statistics) -> (r: Vec<FormatterMatches>)
    ensures
        r@.len() == formatters@.len(),
        forall|k: int| 0 <= k < formatters@.len() ==> #[trigger] r@[k].name@ == formatters@[k].name@
            && r@[k].files@ == accepted_entries(formatters@[k], entries@),
        final(stats).traversed_files as int == sat_add(old(stats).traversed_files as int, entries@.len() as int),
        final(stats).matched_files as int == sat_add(old(stats).matched_files as int, total_files(r@)),
        final(stats).display == old(stats).display,
        final(stats).filtered_files == old(stats).filtered_files,
        final(stats).reformatted_files == old(stats).reformatted_files,
{
    let mut out: Vec<FormatterMatches> = Vec::new();
    let mut k: usize = 0;
    while k < formatters.len()
        invariant
            k <= formatters@.len(),
            out@.len() == k,
            forall|q: int| 0 <= q < k ==> #[trigger] out@[q].name@ == formatters@[q].name@
                && out@[q].files@ == accepted_entries(formatters@[q], entries@),
        decreases formatters@.len() - k,
    {
        let files = accepted_by(&formatters[k], entries);
        out.push(FormatterMatches { name: formatters[k].name.clone(), files });
        k = k + 1;
    }
    let matched = count_files(&out);
    stats.traversed_files = stats.traversed_files.saturating_add(entries.len());
    proof {
        lemma_total_files_nonneg(out@);
    }
    stats.matched_files = stats.matched_files.saturating_add(matched);
    out
}

proof fn lemma_total_files_nonneg(s: Seq<FormatterMatches>)
    ensures
        total_files(s) >= 0,
    decreases s.len(),
{
    if s.len() > 0 {
        lemma_total_files_nonneg(s.drop_last());
    }
}

/// The indexes of the formatters that accept `path`, in order.
pub open spec fn accepting(formatters: Seq<Formatter>, path: Seq<char>) -> Seq<int>
    decreases formatters.len(),
{
    if formatters.len() == 0 {
        Seq::empty()
    } else if formatters.last().accepts(path) {
        accepting(formatters.drop_last(), path).push(formatters.len() - 1)
    } else {
        accepting(formatters.drop_last(), path)
    }
}

/// Returns the indexes of every formatter that accepts `path`, in order; none is
/// preferred over another.
pub fn matching_formatters(formatters: &Vec<Formatter>, path: &str) -> (r: Vec<usize>)
    requires
        is_abs(path@),
    ensures
        r@.map_values(|i: usize| i as int) == accepting(formatters@, path@),
{
    let mut out: Vec<usize> = Vec::new();
    let mut k: usize = 0;
    while k < formatters.len()
        invariant
            k <= formatters@.len(),
            is_abs(path@),
            out@.map_values(|i: usize| i as int) == accepting(formatters@.take(k as int), path@),
        decreases formatters@.len() - k,
    {
        assert(formatters@.take(k + 1).drop_last() =~= formatters@.take(k as int));
        let ghost before = out@;
        if formatters[k].is_match(path) {
            out.push(k);
            assert(out@.map_values(|i: usize| i as int) =~= before.map_values(|i: usize| i as int).push(k as int));
        }
        k = k + 1;
    }
    assert(formatters@.take(formatters@.len() as int) =~= formatters@);
    out
}


/// The paths of `s` whose metadata differs from the pre-run states `prev`, in order; a
/// path with no pre-run state counts as changed.
pub open spec fn changed_paths(prev: Map<Seq<char>, FileMeta>, s: Seq<FileEntry>) -> Seq<Seq<char>>
    decreases s.len(),
{
    if s.len() == 0 {
        Seq::empty()
    } else if prev.contains_key(s.last().path@) && prev[s.last().path@] == s.last().meta {
        changed_paths(prev, s.drop_last())
    } else {
        changed_paths(prev, s.drop_last()).push(s.last().path@)
    }
}

/// The pre-run states of formatter `name` in `before`; none when it is absent.
pub open spec fn states_of(before: Map<Seq<char>, Map<Seq<char>, FileMeta>>, name: Seq<char>) -> Map<Seq<char>, FileMeta> {
    if before.contains_key(name) {
        before[name]
    } else {
        Map::empty()
    }
}

/// The paths of `v` whose metadata differs from `prev`.
fn changed_in(prev: &vstd::hash_map::StringHashMap<FileMeta>, v: &Vec<FileEntry>) -> (r: Vec<String>)
    ensures
        r@.map_values(|s: String| s@) == changed_paths(prev@, v@),
{
    let mut out: Vec<String> = Vec::new();
    let mut i: usize = 0;
    while i < v.len()
        invariant
            i <= v@.len(),
            out@.map_values(|s: String| s@) == changed_paths(prev@, v@.take(i as int)),
        decreases v@.len() - i,
    {
        assert(v@.take(i + 1).drop_last() =~= v@.take(i as int));
        let same = match prev.get(v[i].path.as_str()) {
            Some(m) => *m == v[i].meta,
            None => false,
        };
        if !same {
            let ghost before = out@;
            out.push(v[i].path.clone());
            assert(out@.map_values(|s: String| s@) =~= before.map_values(|s: String| s@).push(v@[i as int].path@));
        }
        i = i + 1;
    }
    assert(v@.take(v@.len() as int) =~= v@);
    out
}

/// Diffs the post-run states against the pre-run ones: for each formatter of
/// `new_matches`, in order, the paths whose metadata changed. A formatter or a path
/// with no pre-run state has all its paths, or that path, counted as changed. Records
/// the number of changed paths in the statistics.
pub fn diff_matches(new_matches: Vec<FormatterMatches>, matches: Vec<FormatterMatches>, stats: &mut Statistics) -> (r: Vec<ChangedFiles>)
    ensures
        r@.len() == new_matches@.len(),
        forall|k: int| 0 <= k < new_matches@.len() ==> #[trigger] r@[k].name@ == new_matches@[k].name@
            && r@[k].paths@.map_values(|s: String| s@) == changed_paths(states_of(match_map(matches@), new_matches@[k].name@), new_matches@[k].files@),
        final(stats).reformatted_files as int == sat_add(total_changed(r@), 0),
        final(stats).display == old(stats).display,
        final(stats).traversed_files == old(stats).traversed_files,
        final(stats).matched_files == old(stats).matched_files,
        final(stats).filtered_files == old(stats).filtered_files,
{
    let mut out: Vec<ChangedFiles> = Vec::new();
    let mut total: usize = 0;
    let mut k: usize = 0;
    while k < new_matches.len()
        invariant
            k <= new_matches@.len(),
            out@.len() == k,
            forall|q: int| 0 <= q < k ==> #[trigger] out@[q].name@ == new_matches@[q].name@
                && out@[q].paths@.map_values(|s: String| s@) == changed_paths(states_of(match_map(matches@), new_matches@[q].name@), new_matches@[q].files@),
            total as int == sat_add(total_changed(out@), 0),
            total_changed(out@) >= 0,
        decreases new_matches@.len() - k,
    {
        let m = &new_matches[k];
        let prev = match find_formatter(&matches, &m.name) {
            Some(i) => index_entries(&matches[i].files),
            None => vstd::hash_map::StringHashMap::new(),
        };
        let paths = changed_in(&prev, &m.files);
        let ghost before = out@;
        total = total.saturating_add(paths.len());
        out.push(ChangedFiles { name: m.name.clone(), paths });
        assert(out@.drop_last() =~= before);
        k = k + 1;
    }
    stats.reformatted_files = total;
    out
}

/// The size of the batches in which paths are handed to a formatter command.
pub const CHUNK_SIZE: usize = 1024;

/// The batches concatenated, as path views.
pub open spec fn joined_chunks(c: Seq<Vec<String>>) -> Seq<Seq<char>>
    decreases c.len(),
{
    if c.len() == 0 {
        Seq::empty()
    } else {
        joined_chunks(c.drop_last()) + c.last()@.map_values(|s: String| s@)
    }
}

/// The paths of a list of entries.
pub open spec fn entry_paths(s: Seq<FileEntry>) -> Seq<Seq<char>> {
    s.map_values(|e: FileEntry| e.path@)
}

/// Splits the paths of `files` into batches of `size`, in order, the last one holding
/// what remains; none is empty.
pub fn path_chunks(files: &Vec<FileEntry>, size: usize) -> (r: Vec<Vec<String>>)
    requires
        size > 0,
    ensures
        joined_chunks(r@) == entry_paths(files@),
        forall|k: int| 0 <= k < r@.len() ==> 0 < (#[trigger] r@[k])@.len() <= size,
        forall|k: int| 0 <= k < r@.len() - 1 ==> (#[trigger] r@[k])@.len() == size,
{
    let mut out: Vec<Vec<String>> = Vec::new();
    let mut cur: Vec<String> = Vec::new();
    let mut i: usize = 0;
    while i < files.len()
        invariant
            size > 0,
            i <= files@.len(),
            cur@.len() <= size,
            joined_chunks(out@) + cur@.map_values(|s: String| s@) == entry_paths(files@.take(i as int)),
            forall|k: int| 0 <= k < out@.len() ==> (#[trigger] out@[k])@.len() == size,
        decreases files@.len() - i,
    {
        if cur.len() == size {
            let ghost o = out@;
            let ghost c = cur@;
            out.push(cur);
            cur = Vec::new();
            assert(out@.drop_last() =~= o);
            assert(joined_chunks(out@) + cur@.map_values(|s: String| s@) =~= joined_chunks(o) + c.map_values(|s: String| s@));
        }
        let ghost c0 = cur@;
        cur.push(files[i].path.clone());
        assert(cur@.map_values(|s: String| s@) =~= c0.map_values(|s: String| s@).push(files@[i as int].path@));
        assert(entry_paths(files@.take(i + 1)) =~= entry_paths(files@.take(i as int)).push(files@[i as int].path@));
        i = i + 1;
    }
    assert(files@.take(files@.len() as int) =~= files@);
    if cur.len() > 0 {
        let ghost o = out@;
        out.push(cur);
        assert(out@.drop_last() =~= o);
    } else {
        assert(cur@.map_values(|s: String| s@) =~= Seq::<Seq<char>>::empty());
        assert(joined_chunks(out@) + Seq::<Seq<char>>::empty() =~= joined_chunks(out@));
    }
    out
}

/// The outcome of running one formatter over its batches: the post-run states of its
/// files, or the message of its failure.
#[derive(Debug, PartialEq, Eq)]
pub struct FormatterRun {
    /// The formatter
    pub name: FormatterName,
    /// Post-run states, or why it failed
    pub result: Result<Vec<FileEntry>, String>,
}

/// The formatters of `runs` that succeeded, with their post-run states, in order.
pub open spec fn succeeded(runs: Seq<FormatterRun>) -> Seq<(Seq<char>, Seq<FileEntry>)>
    decreases runs.len(),
{
    if runs.len() == 0 {
        Seq::empty()
    } else {
        match runs.last().result {
            Ok(v) => succeeded(runs.drop_last()).push((runs.last().name@, v@)),
            Err(_) => succeeded(runs.drop_last()),
        }
    }
}

/// The failure messages of `runs`, in order.
pub open spec fn failed(runs: Seq<FormatterRun>) -> Seq<Seq<char>>
    decreases runs.len(),
{
    if runs.len() == 0 {
        Seq::empty()
    } else {
        match runs.last().result {
            Ok(_) => failed(runs.drop_last()),
            Err(e) => failed(runs.drop_last()).push(e@),
        }
    }
}

/// Folds the outcomes of all formatters, once every one has finished, into the post-run
/// states of those that succeeded and the messages of those that failed.
pub fn fold_runs(runs: Vec<FormatterRun>) -> (r: (Vec<FormatterMatches>, Vec<String>))
    ensures
        r.0@.map_values(|m: FormatterMatches| (m.name@, m.files@)) == succeeded(runs@),
        r.1@.map_values(|s: String| s@) == failed(runs@),
{
    let mut runs = runs;
    let ghost given = runs@;
    let mut ok: Vec<FormatterMatches> = Vec::new();
    let mut errs: Vec<String> = Vec::new();
    let mut i: usize = 0;
    while i < runs.len()
        invariant
            i <= runs@.len(),
            runs@.len() == given.len(),
            forall|k: int| i <= k < given.len() ==> runs@[k] == given[k],
            ok@.map_values(|m: FormatterMatches| (m.name@, m.files@)) == succeeded(given.take(i as int)),
            errs@.map_values(|s: String| s@) == failed(given.take(i as int)),
        decreases runs@.len() - i,
    {
        let mut run = FormatterRun { name: FormatterName(String::new()), result: Err(String::new()) };
        runs.set_and_swap(i, &mut run);
        assert(run == given[i as int]);
        assert(given.take(i + 1).drop_last() =~= given.take(i as int));
        let ghost o = ok@;
        let ghost e = errs@;
        match run.result {
            Ok(files) => {
                ok.push(FormatterMatches { name: run.name, files });
                assert(ok@.map_values(|m: FormatterMatches| (m.name@, m.files@)) =~= o.map_values(|m: FormatterMatches| (m.name@, m.files@)).push((given[i as int].name@, ok@.last().files@)));
            },
            Err(msg) => {
                errs.push(msg);
                assert(errs@.map_values(|s: String| s@) =~= e.map_values(|s: String| s@).push(errs@.last()@));
            },
        }
        i = i + 1;
    }
    assert(given.take(given.len() as int) =~= given);
    (ok, errs)
}

/// Why a run reports failure.
#[derive(Debug, Clone, Copy, PartialEq, Eq, Structural)]
pub enum RunError {
    /// At least one formatter failed
    FormatterFailed,
    /// Files changed while failing on change was asked for
    FailOnChange,
}

/// Decides how the run ends, once all formatters have finished: it fails when a
/// formatter failed, or when files changed and failing on change was asked for, in
/// which case the long display is chosen. Whether the formatters exited cleanly does
/// not matter to the second rule: metadata is the ground truth.
pub fn conclude(stats: &mut Statistics, fail_on_change: bool, failures: usize) -> (r: Result<(), RunError>)
    ensures
        r == Err::<(), RunError>(RunError::FormatterFailed) <==> failures > 0,
        r == Err::<(), RunError>(RunError::FailOnChange) <==> failures == 0 && fail_on_change && old(stats).reformatted_files > 0,
        r is Ok <==> failures == 0 && !(fail_on_change && old(stats).reformatted_files > 0),
        final(stats).display == if r == Err::<(), RunError>(RunError::FailOnChange) { DisplayType::Long } else { old(stats).display },
        final(stats).traversed_files == old(stats).traversed_files,
        final(stats).matched_files == old(stats).matched_files,
        final(stats).filtered_files == old(stats).filtered_files,
        final(stats).reformatted_files == old(stats).reformatted_files,
{
    if failures > 0 {
        return Err(RunError::FormatterFailed);
    }
    if stats.reformatted_files > 0 && fail_on_change {
        stats.display = DisplayType::Long;
        return Err(RunError::FailOnChange);
    }
    Ok(())
}


/// Formatters whose include patterns never match the same path never both accept a
/// path: the formatters partition the files they match.
pub proof fn law_disjoint_includes_partition(f: Formatter, g: Formatter, path: Seq<char>)
    requires
        forall|p: Seq<char>| !(any_glob_matches(glob_set_patterns(f.includes), p) && any_glob_matches(glob_set_patterns(g.includes), p)),
    ensures
        !(f.accepts(path) && g.accepts(path)),
{
    assert(!(any_glob_matches(glob_set_patterns(f.includes), path) && any_glob_matches(glob_set_patterns(g.includes), path)));
}

/// Every formatter that accepts a path is among those returned for it, and only those:
/// the first match does not win.
pub proof fn law_every_match_returned(formatters: Seq<Formatter>, path: Seq<char>)
    ensures
        forall|k: int| 0 <= k < formatters.len() ==> (#[trigger] formatters[k].accepts(path) <==> accepting(formatters, path).contains(k)),
    decreases formatters.len(),
{
    if formatters.len() > 0 {
        let init = formatters.drop_last();
        law_every_match_returned(init, path);
        lemma_accepting_bounded(init, path);
        let last = formatters.len() - 1;
        assert forall|k: int| 0 <= k < formatters.len() implies (#[trigger] formatters[k].accepts(path) <==> accepting(formatters, path).contains(k)) by {
            if k < last {
                assert(formatters[k] == init[k]);
                if formatters.last().accepts(path) {
                    assert(accepting(formatters, path) == accepting(init, path).push(last));
                    if accepting(formatters, path).contains(k) {
                        let j = choose|j: int| 0 <= j < accepting(formatters, path).len() && accepting(formatters, path)[j] == k;
                        assert(j < accepting(init, path).len());
                        assert(accepting(init, path)[j] == k);
                    }
                    if accepting(init, path).contains(k) {
                        let j = choose|j: int| 0 <= j < accepting(init, path).len() && accepting(init, path)[j] == k;
                        assert(accepting(formatters, path)[j] == k);
                    }
                }
            } else {
                if formatters.last().accepts(path) {
                    assert(accepting(formatters, path).last() == k);
                } else if accepting(formatters, path).contains(k) {
                    let j = choose|j: int| 0 <= j < accepting(init, path).len() && accepting(init, path)[j] == k;
                    assert(accepting(init, path)[j] < init.len());
                }
            }
        }
    }
}

proof fn lemma_accepting_bounded(formatters: Seq<Formatter>, path: Seq<char>)
    ensures
        forall|j: int| 0 <= j < accepting(formatters, path).len() ==> 0 <= #[trigger] accepting(formatters, path)[j] < formatters.len(),
    decreases formatters.len(),
{
    if formatters.len() > 0 {
        let init = formatters.drop_last();
        lemma_accepting_bounded(init, path);
        let a = accepting(init, path);
        assert forall|j: int| 0 <= j < accepting(formatters, path).len() implies 0 <= #[trigger] accepting(formatters, path)[j] < formatters.len() by {
            if j < a.len() {
                assert(accepting(formatters, path)[j] == a[j]);
            }
        }
    }
}

/// A path is reported as reformatted exactly when its post-run metadata differs from
/// its pre-run metadata.
pub proof fn law_diff_reports_change(pre: FileMeta, post: FileEntry)
    ensures
        changed_paths(Map::empty().insert(post.path@, pre), seq![post]) == if pre == post.meta {
            Seq::<Seq<char>>::empty()
        } else {
            seq![post.path@]
        },
{
    let s = seq![post];
    let prev = Map::<Seq<char>, FileMeta>::empty().insert(post.path@, pre);
    assert(s.drop_last() =~= Seq::<FileEntry>::empty());
    assert(s.last() == post);
    assert(changed_paths(prev, s.drop_last()) == Seq::<Seq<char>>::empty());
    assert(prev.contains_key(post.path@) && prev[post.path@] == pre);
    if pre != post.meta {
        assert(Seq::<Seq<char>>::empty().push(post.path@) =~= seq![post.path@]);
    }
}


/// Why the formatters could not be loaded.
#[derive(Debug, Clone, Copy, PartialEq, Eq, Structural)]
pub enum LoadError {
    /// A configured formatter could not be loaded, or was not selected, and missing
    /// formatters are not allowed
    MissingFormatter,
}

/// The exclude patterns that apply to every formatter.
pub open spec fn global_excludes(root: Root) -> Seq<String> {
    match root.global {
        Some(g) => g.excludes@,
        None => Seq::empty(),
    }
}

/// The formatter named `name` is among those selected; all are when none are named.
pub open spec fn is_selected(selected: Option<Vec<String>>, name: Seq<char>) -> bool {
    match selected {
        None => true,
        Some(v) => str_views(v@).contains(name),
    }
}

/// Formatter `f` is what section `sec` describes, with the global excludes added to its
/// own, and with the command `command`.
pub open spec fn built_from_section(f: Formatter, tree_root: Seq<char>, sec: FormatterSection, global: Seq<String>, command: Seq<char>) -> bool {
    &&& f.name@ == sec.name@
    &&& f.command@ == command
    &&& f.options@ == sec.config.options@
    &&& f.work_dir@ == expanded(sec.config.work_dir@, tree_root)
    &&& glob_set_patterns(f.includes) == expanded_patterns(sec.config.includes@, tree_root)
    &&& glob_set_patterns(f.excludes) == expanded_patterns(sec.config.excludes@ + global, tree_root)
    &&& f.includes_str@ == sec.config.includes@
    &&& f.excludes_str@ == sec.config.excludes@ + global
}

/// Section `sec` builds with the lookup result `command` and the global excludes
/// `global`: it has includes, its command was found, and all its patterns compile.
pub open spec fn section_builds(sec: FormatterSection, global: Seq<String>, tree_root: Seq<char>, command: Option<String>) -> bool {
    &&& sec.config.includes@.len() > 0
    &&& command is Some
    &&& patterns_compile(expanded_patterns(sec.config.includes@, tree_root))
    &&& patterns_compile(expanded_patterns(sec.config.excludes@ + global, tree_root))
}

/// Section `k` of `root` builds with its lookup result and is selected.
pub open spec fn section_loads(root: Root, tree_root: Seq<char>, selected: Option<Vec<String>>, commands: Seq<Option<String>>, k: int) -> bool {
    section_builds(root.formatter@[k], global_excludes(root), tree_root, commands[k]) && is_selected(selected, root.formatter@[k].name@)
}

/// The indexes of the sections below `i` that load, in order.
pub open spec fn loaded_sections(root: Root, tree_root: Seq<char>, selected: Option<Vec<String>>, commands: Seq<Option<String>>, i: int) -> Seq<int>
    decreases i,
{
    if i <= 0 {
        Seq::empty()
    } else {
        let rest = loaded_sections(root, tree_root, selected, commands, i - 1);
        if section_loads(root, tree_root, selected, commands, i - 1) {
            rest.push(i - 1)
        } else {
            rest
        }
    }
}

/// What loading the formatters of `root` gives with the lookup results `commands`: it
/// succeeds when missing formatters are allowed or every section loads, and then lists
/// the formatters of exactly the sections that load, in section order.
pub open spec fn assembled(
    r: Result<Vec<Formatter>, LoadError>,
    root: Root,
    tree_root: Seq<char>,
    allow_missing_formatter: bool,
    selected: Option<Vec<String>>,
    commands: Seq<Option<String>>,
) -> bool {
    let n = root.formatter@.len() as int;
    let idx = loaded_sections(root, tree_root, selected, commands, n);
    &&& (r is Ok <==> (allow_missing_formatter || forall|k: int| 0 <= k < n ==> #[trigger] section_loads(root, tree_root, selected, commands, k)))
    &&& (r matches Ok(fs) ==> fs@.len() == idx.len() && forall|j: int| 0 <= j < fs@.len() ==>
        #[trigger] built_from_section(fs@[j], tree_root, root.formatter@[idx[j]], global_excludes(root), commands[idx[j]]->Some_0@))
}

proof fn lemma_loaded_sections(root: Root, tree_root: Seq<char>, selected: Option<Vec<String>>, commands: Seq<Option<String>>, i: int)
    requires
        i >= 0,
    ensures
        loaded_sections(root, tree_root, selected, commands, i).len() <= i,
        forall|j: int| 0 <= j < loaded_sections(root, tree_root, selected, commands, i).len()
            ==> 0 <= #[trigger] loaded_sections(root, tree_root, selected, commands, i)[j] < i,
        loaded_sections(root, tree_root, selected, commands, i).len() == i
            <==> forall|k: int| 0 <= k < i ==> #[trigger] section_loads(root, tree_root, selected, commands, k),
    decreases i,
{
    if i > 0 {
        lemma_loaded_sections(root, tree_root, selected, commands, i - 1);
        let rest = loaded_sections(root, tree_root, selected, commands, i - 1);
        let all = loaded_sections(root, tree_root, selected, commands, i);
        assert forall|j: int| 0 <= j < all.len() implies 0 <= #[trigger] all[j] < i by {
            if j < rest.len() {
                assert(all[j] == rest[j]);
            }
        }
        if !section_loads(root, tree_root, selected, commands, i - 1) {
            assert(!(forall|k: int| 0 <= k < i ==> #[trigger] section_loads(root, tree_root, selected, commands, k)));
        }
    }
}

/// Returns true if `s` is one of the strings of `v`.
pub fn list_contains(v: &Vec<String>, s: &str) -> (r: bool)
    ensures
        r == str_views(v@).contains(s@),
{
    let target = String::from_str(s);
    let mut i: usize = 0;
    while i < v.len()
        invariant
            i <= v@.len(),
            target@ == s@,
            forall|j: int| 0 <= j < i ==> v@[j]@ != s@,
        decreases v@.len() - i,
    {
        if v[i] == target {
            assert(str_views(v@)[i as int] == s@);
            return true;
        }
        i = i + 1;
    }
    assert(!str_views(v@).contains(s@)) by {
        if str_views(v@).contains(s@) {
            let j = choose|j: int| 0 <= j < str_views(v@).len() && str_views(v@)[j] == s@;
            assert(v@[j]@ == s@);
        }
    }
    false
}

/// Builds the formatters of the configuration, in order, with the commands already
/// looked up (`None` for one that was not found). A formatter that cannot be built, or
/// that is not selected, is left out; unless missing formatters are allowed, that
/// fails the load.
pub fn assemble_formatters(
    root: &Root,
    tree_root: &str,
    allow_missing_formatter: bool,
    selected_formatters: &Option<Vec<String>>,
    commands: &Vec<Option<String>>,
) -> (r: Result<Vec<Formatter>, LoadError>)
    requires
        commands@.len() == root.formatter@.len(),
    ensures
        assembled(r, *root, tree_root@, allow_missing_formatter, *selected_formatters, commands@),
{
    let global: Vec<String> = match &root.global {
        Some(g) => g.excludes.clone(),
        None => Vec::new(),
    };
    assert(global@ =~= global_excludes(*root)) by {
        assert forall|q: int| 0 <= q < global@.len() implies global@[q] == global_excludes(*root)[q] by {
            assert(str_views(global@)[q] == str_views(global_excludes(*root))[q]);
        }
    }
    let ghost sel = *selected_formatters;
    let ghost cmds = commands@;
    let n = root.formatter.len();
    let mut out: Vec<Formatter> = Vec::new();
    let mut i: usize = 0;
    while i < n
        invariant
            n == root.formatter@.len(),
            cmds == commands@,
            cmds.len() == n,
            sel == *selected_formatters,
            global@ == global_excludes(*root),
            i <= n,
            out@.len() == loaded_sections(*root, tree_root@, sel, cmds, i as int).len(),
            forall|j: int| 0 <= j < out@.len() ==> #[trigger] built_from_section(out@[j], tree_root@,
                root.formatter@[loaded_sections(*root, tree_root@, sel, cmds, i as int)[j]], global@,
                cmds[loaded_sections(*root, tree_root@, sel, cmds, i as int)[j]]->Some_0@),
        decreases n - i,
    {
        let ghost before = out@;
        let ghost prev = loaded_sections(*root, tree_root@, sel, cmds, i as int);
        let sec = &root.formatter[i];
        let mut excludes = sec.config.excludes.clone();
        let mut extra = global.clone();
        let ghost own = excludes@;
        assert(own =~= sec.config.excludes@) by {
            assert forall|q: int| 0 <= q < own.len() implies own[q] == sec.config.excludes@[q] by {}
        }
        assert(extra@ =~= global@);
        excludes.append(&mut extra);
        let cfg = FmtConfig {
            command: sec.config.command.clone(),
            work_dir: sec.config.work_dir.clone(),
            options: sec.config.options.clone(),
            includes: sec.config.includes.clone(),
            excludes,
        };
        assert(cfg.options@ =~= sec.config.options@);
        assert(cfg.includes@ =~= sec.config.includes@);
        assert(cfg.excludes@ =~= sec.config.excludes@ + global@);
        let command = match &commands[i] {
            Some(c) => Some(c.clone()),
            None => None,
        };
        let built = Formatter::from_resolved(tree_root, sec.name.as_str(), &cfg, command);
        let chosen = match selected_formatters {
            None => true,
            Some(v) => list_contains(v, sec.name.as_str()),
        };
        assert((built is Ok && chosen) == section_loads(*root, tree_root@, sel, cmds, i as int));
        match built {
            Ok(f) => {
                if chosen {
                    out.push(f);
                }
            },
            Err(_) => {},
        }
        let ghost now = loaded_sections(*root, tree_root@, sel, cmds, i + 1);
        assert forall|j: int| 0 <= j < out@.len() implies #[trigger] built_from_section(out@[j], tree_root@,
            root.formatter@[now[j]], global@, cmds[now[j]]->Some_0@) by {
            if j < before.len() {
                assert(out@[j] == before[j]);
                assert(now[j] == prev[j]);
            }
        }
        i = i + 1;
    }
    proof {
        lemma_loaded_sections(*root, tree_root@, sel, cmds, n as int);
    }
    if !allow_missing_formatter && out.len() != n {
        return Err(LoadError::MissingFormatter);
    }
    Ok(out)
}

/// Loads all the formatter instances from the config, looking each command up in the
/// search path (the `PATH` list). The outcome is what assembling gives for some lookup
/// results, every found command being absolute; in particular it fails only when
/// missing formatters are not allowed and some section does not load.
pub fn load_formatters(
    root: Root,
    tree_root: &str,
    allow_missing_formatter: bool,
    selected_formatters: &Option<Vec<String>>,
    search_path: &Option<String>,
) -> (r: Result<Vec<Formatter>, LoadError>)
    ensures
        exists|commands: Seq<Option<String>>| commands.len() == root.formatter@.len()
            && (forall|k: int| 0 <= k < commands.len() ==> (#[trigger] commands[k] matches Some(c) ==> is_abs(c@)))
            && #[trigger] assembled(r, root, tree_root@, allow_missing_formatter, *selected_formatters, commands),
{
    let mut commands: Vec<Option<String>> = Vec::new();
    let mut i: usize = 0;
    while i < root.formatter.len()
        invariant
            i <= root.formatter@.len(),
            commands@.len() == i,
            forall|k: int| 0 <= k < i ==> (#[trigger] commands@[k] matches Some(c) ==> is_abs(c@)),
        decreases root.formatter@.len() - i,
    {
        commands.push(Formatter::resolve_command(tree_root, &root.formatter[i].config, search_path));
        i = i + 1;
    }
    let r = assemble_formatters(&root, tree_root, allow_missing_formatter, selected_formatters, &commands);
    assert(assembled(r, root, tree_root@, allow_missing_formatter, *selected_formatters, commands@));
    r
}

/// The query terms for one formatter, for a change-notification service: any of the
/// include globs, and none of the exclude globs when there are some.
#[derive(Debug, Clone, PartialEq, Eq)]
pub enum FormatterQuery {
    /// Any of these globs
    Any(Vec<String>),
    /// Any of the first globs, and none of the second
    AnyExcept(Vec<String>, Vec<String>),
}

/// A configured pattern as a glob that matches at any depth below the root.
pub open spec fn anywhere(p: Seq<char>) -> Seq<char> {
    seq!['*', '*', '/'] + p
}

/// The patterns of `v`, each made to match at any depth.
pub open spec fn anywhere_all(v: Seq<String>) -> Seq<Seq<char>> {
    v.map_values(|p: String| anywhere(p@))
}

/// Makes each pattern match at any depth below the root.
fn globs_anywhere(v: &Vec<String>) -> (r: Vec<String>)
    ensures
        r@.map_values(|s: String| s@) == anywhere_all(v@),
{
    let mut out: Vec<String> = Vec::new();
    let mut i: usize = 0;
    while i < v.len()
        invariant
            i <= v@.len(),
            out@.map_values(|s: String| s@) == anywhere_all(v@.take(i as int)),
        decreases v@.len() - i,
    {
        proof {
            reveal_strlit("**/");
        }
        let mut g = String::from_str("**/");
        g.append(v[i].as_str());
        assert(g@ =~= anywhere(v@[i as int]@));
        let ghost before = out@;
        out.push(g);
        assert(out@.map_values(|s: String| s@) =~= before.map_values(|s: String| s@).push(anywhere(v@[i as int]@)));
        assert(anywhere_all(v@.take(i + 1)) =~= anywhere_all(v@.take(i as int)).push(anywhere(v@[i as int]@)));
        i = i + 1;
    }
    assert(v@.take(v@.len() as int) =~= v@);
    out
}

/// Builds the query terms of every formatter, in order: its include patterns, and its
/// exclude patterns negated when it has some, each made to match at any depth.
pub fn watchman_queries(formatters: &Vec<Formatter>) -> (r: Vec<FormatterQuery>)
    ensures
        r@.len() == formatters@.len(),
        forall|k: int| 0 <= k < formatters@.len() ==> match #[trigger] r@[k] {
            FormatterQuery::Any(i) => formatters@[k].excludes_str@.len() == 0
                && i@.map_values(|s: String| s@) == anywhere_all(formatters@[k].includes_str@),
            FormatterQuery::AnyExcept(i, e) => formatters@[k].excludes_str@.len() > 0
                && i@.map_values(|s: String| s@) == anywhere_all(formatters@[k].includes_str@)
                && e@.map_values(|s: String| s@) == anywhere_all(formatters@[k].excludes_str@),
        },
{
    let mut out: Vec<FormatterQuery> = Vec::new();
    let mut k: usize = 0;
    while k < formatters.len()
        invariant
            k <= formatters@.len(),
            out@.len() == k,
            forall|q: int| 0 <= q < k ==> match #[trigger] out@[q] {
                FormatterQuery::Any(i) => formatters@[q].excludes_str@.len() == 0
                    && i@.map_values(|s: String| s@) == anywhere_all(formatters@[q].includes_str@),
                FormatterQuery::AnyExcept(i, e) => formatters@[q].excludes_str@.len() > 0
                    && i@.map_values(|s: String| s@) == anywhere_all(formatters@[q].includes_str@)
                    && e@.map_values(|s: String| s@) == anywhere_all(formatters@[q].excludes_str@),
            },
        decreases formatters@.len() - k,
    {
        let f = &formatters[k];
        let includes = globs_anywhere(&f.includes_str);
        let term = if f.excludes_str.len() > 0 {
            FormatterQuery::AnyExcept(includes, globs_anywhere(&f.excludes_str))
        } else {
            FormatterQuery::Any(includes)
        };
        out.push(term);
        k = k + 1;
    }
    out
}

/// A file reported by the change-notification service, relative to the tree root.
#[derive(Debug, Clone, PartialEq, Eq)]
pub struct ChangedFile {
    /// Path relative to the tree root
    pub name: String,
    /// File size, in bytes
    pub size: u64,
    /// File mtime, in seconds since the epoch
    pub mtime: i64,
}

/// `p` lies within one of `paths`.
pub open spec fn under_any(p: Seq<char>, paths: Seq<String>) -> bool {
    exists|i: int| 0 <= i < paths.len() && within(p, #[trigger] paths[i]@)
}

/// The reported files made absolute against the tree root, with their metadata, keeping
/// those that lie within one of the requested paths, in order.
pub open spec fn reported_entries(files: Seq<ChangedFile>, tree_root: Seq<char>, paths: Seq<String>) -> Seq<(Seq<char>, FileMeta)>
    decreases files.len(),
{
    if files.len() == 0 {
        Seq::empty()
    } else {
        let rest = reported_entries(files.drop_last(), tree_root, paths);
        let p = expanded(files.last().name@, tree_root);
        if under_any(p, paths) {
            rest.push((p, FileMeta { mtime: files.last().mtime, size: files.last().size }))
        } else {
            rest
        }
    }
}

/// Returns true if `p` lies within one of `paths`.
fn is_under_any(p: &str, paths: &Vec<String>) -> (r: bool)
    ensures
        r == under_any(p@, paths@),
{
    let mut i: usize = 0;
    while i < paths.len()
        invariant
            i <= paths@.len(),
            forall|j: int| 0 <= j < i ==> !within(p@, #[trigger] paths@[j]@),
        decreases paths@.len() - i,
    {
        if is_within(p, paths[i].as_str()) {
            return true;
        }
        i = i + 1;
    }
    false
}

/// Turns the files reported by the change-notification service into entries: absolute
/// paths with their metadata, keeping those within the requested paths. Formatters are
/// then matched on them as on a tree walk's.
pub fn changes_to_entries(files: &Vec<ChangedFile>, tree_root: &str, paths: &Vec<String>) -> (r: Vec<FileEntry>)
    ensures
        r@.map_values(|e: FileEntry| (e.path@, e.meta)) == reported_entries(files@, tree_root@, paths@),
{
    let mut out: Vec<FileEntry> = Vec::new();
    let mut i: usize = 0;
    while i < files.len()
        invariant
            i <= files@.len(),
            out@.map_values(|e: FileEntry| (e.path@, e.meta)) == reported_entries(files@.take(i as int), tree_root@, paths@),
        decreases files@.len() - i,
    {
        assert(files@.take(i + 1).drop_last() =~= files@.take(i as int));
        let p = expand_path(files[i].name.as_str(), tree_root);
        if is_under_any(p.as_str(), paths) {
            let ghost before = out@;
            let meta = FileMeta { mtime: files[i].mtime, size: files[i].size };
            out.push(FileEntry { path: p, meta });
            assert(out@.map_values(|e: FileEntry| (e.path@, e.meta)) =~= before.map_values(|e: FileEntry| (e.path@, e.meta)).push((out@.last().path@, meta)));
        }
        i = i + 1;
    }
    assert(files@.take(files@.len() as int) =~= files@);
    out
}

/// A file that one of the global exclude patterns matches is never accepted by a
/// formatter loaded with them, whatever the cache holds.
pub proof fn law_global_exclude_never_matched(
    f: Formatter,
    tree_root: Seq<char>,
    sec: FormatterSection,
    global: Seq<String>,
    command: Seq<char>,
    i: int,
    path: Seq<char>,
)
    requires
        built_from_section(f, tree_root, sec, global, command),
        0 <= i < global.len(),
        glob_matches(expanded_pattern(global[i]@, tree_root), path),
    ensures
        !f.accepts(path),
{
    let all = sec.config.excludes@ + global;
    let j = sec.config.excludes@.len() + i;
    assert(all[j] == global[i]);
    assert(glob_set_patterns(f.excludes)[j] == expanded_pattern(global[i]@, tree_root));
}

/// A file that one of a formatter's own exclude patterns matches is never accepted by
/// it, even when an include pattern matches it too.
pub proof fn law_local_exclude_never_matched(
    f: Formatter,
    tree_root: Seq<char>,
    sec: FormatterSection,
    global: Seq<String>,
    command: Seq<char>,
    i: int,
    path: Seq<char>,
)
    requires
        built_from_section(f, tree_root, sec, global, command),
        0 <= i < sec.config.excludes@.len(),
        glob_matches(expanded_pattern(sec.config.excludes@[i]@, tree_root), path),
    ensures
        !f.accepts(path),
{
    let all = sec.config.excludes@ + global;
    assert(all[i] == sec.config.excludes@[i]);
    assert(glob_set_patterns(f.excludes)[i] == expanded_pattern(sec.config.excludes@[i]@, tree_root));
}

proof fn lemma_changed_from_entry(prev: Map<Seq<char>, FileMeta>, s: Seq<FileEntry>, p: Seq<char>)
    requires
        changed_paths(prev, s).contains(p),
    ensures
        exists|i: int| 0 <= i < s.len() && (#[trigger] s[i]).path@ == p,
    decreases s.len(),
{
    let init = s.drop_last();
    let rest = changed_paths(prev, init);
    if rest.contains(p) {
        lemma_changed_from_entry(prev, init, p);
        let i = choose|i: int| 0 <= i < init.len() && (#[trigger] init[i]).path@ == p;
        assert(s[i] == init[i]);
    } else {
        let j = choose|j: int| 0 <= j < changed_paths(prev, s).len() && changed_paths(prev, s)[j] == p;
        if j < rest.len() {
            assert(changed_paths(prev, s)[j] == rest[j]);
        }
        assert(s[s.len() - 1].path@ == p);
    }
}

/// Among post-run entries with distinct paths, a path is reported as reformatted exactly
/// when its pre-run state is missing or differs from its post-run state.
pub proof fn law_reported_iff_changed(prev: Map<Seq<char>, FileMeta>, s: Seq<FileEntry>, i: int)
    requires
        paths_distinct(s),
        0 <= i < s.len(),
    ensures
        changed_paths(prev, s).contains(s[i].path@) <==> !(prev.contains_key(s[i].path@) && prev[s[i].path@] == s[i].meta),
    decreases s.len(),
{
    let init = s.drop_last();
    let e = s.last();
    let rest = changed_paths(prev, init);
    let held = prev.contains_key(e.path@) && prev[e.path@] == e.meta;
    assert(paths_distinct(init)) by {
        assert forall|a: int, b: int| 0 <= a < b < init.len() implies init[a].path@ != init[b].path@ by {
            assert(init[a] == s[a] && init[b] == s[b]);
        }
    }
    if i == s.len() - 1 {
        if rest.contains(e.path@) {
            lemma_changed_from_entry(prev, init, e.path@);
            let j = choose|j: int| 0 <= j < init.len() && (#[trigger] init[j]).path@ == e.path@;
            assert(s[j] == init[j]);
        }
        if !held {
            assert(changed_paths(prev, s).last() == e.path@);
        }
    } else {
        law_reported_iff_changed(prev, init, i);
        assert(init[i] == s[i]);
        assert(e.path@ != s[i].path@);
        if !held {
            assert(changed_paths(prev, s) == rest.push(e.path@));
            if rest.contains(s[i].path@) {
                let j = choose|j: int| 0 <= j < rest.len() && rest[j] == s[i].path@;
                assert(changed_paths(prev, s)[j] == s[i].path@);
            }
            if changed_paths(prev, s).contains(s[i].path@) {
                let j = choose|j: int| 0 <= j < changed_paths(prev, s).len() && changed_paths(prev, s)[j] == s[i].path@;
                assert(j < rest.len());
                assert(rest[j] == s[i].path@);
            }
        }
    }
}

/// What a run does with the cache, from the two cache flags.
#[derive(Debug, Clone, Copy, PartialEq, Eq, Structural)]
pub struct CachePolicy {
    /// Start from the manifest on disk, rather than from an empty cache
    pub load: bool,
    /// Refresh fingerprints, filter the discovered files, and write the cache back
    pub use_cache: bool,
}

/// Decides the cache policy: ignoring the cache turns all use of it off; clearing it
/// starts from an empty cache that is still refreshed, consulted and written.
pub fn cache_policy(no_cache: bool, clear_cache: bool) -> (r: CachePolicy)
    ensures
        r.load == (!no_cache && !clear_cache),
        r.use_cache == !no_cache,
{
    CachePolicy { load: !no_cache && !clear_cache, use_cache: !no_cache }
}

/// Records a run in the cache: with a change-notification service only its new cursor
/// is kept; after a tree walk the post-run file states are merged in.
pub fn record_run(cache: &mut CacheManifest, new_matches: Vec<FormatterMatches>, notified: bool, clock: Option<String>)
    ensures
        notified ==> final(cache).states() == old(cache).states() && final(cache).clock == clock,
        !notified ==> final(cache).states() == merged_all(old(cache).states(), new_matches@)
            && final(cache).clock == old(cache).clock,
        final(cache).formatters == old(cache).formatters,
{
    if notified {
        cache.clock = clock;
    } else {
        cache.add_results(new_matches);
    }
}

} // verus!
