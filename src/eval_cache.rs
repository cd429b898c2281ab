//! The invalidation cache: formatter fingerprints, last-seen file states, and the
//! rules that drop what changed.
use crate::meta::{
    copy_entries, files_without, find_formatter, formatters_kept, lemma_files_without,
    lemma_formatters_kept, lemma_match_map_update_last, lemma_meta_map_append, match_map,
    meta_map, FileEntry, FileMeta, FormatterMatches, FormatterName,
};
use crate::paths::{is_abs, join_path, joined};
use sha1::Digest;
use vstd::prelude::*;
use vstd::string::*;
use vstd::hash_map::StringHashMap;

verus! {

/// The views of a list of strings.
pub open spec fn str_views(v: Seq<String>) -> Seq<Seq<char>> {
    v.map_values(|s: String| s@)
}

/// Returns true if both lists hold the same strings in the same order.
pub fn strings_equal(a: &Vec<String>, b: &Vec<String>) -> (r: bool)
    ensures
        r == (str_views(a@) == str_views(b@)),
{
    if a.len() != b.len() {
        assert(str_views(a@).len() != str_views(b@).len());
        return false;
    }
    let mut i: usize = 0;
    while i < a.len()
        invariant
            a@.len() == b@.len(),
            i <= a@.len(),
            forall|j: int| 0 <= j < i ==> a@[j]@ == b@[j]@,
        decreases a@.len() - i,
    {
        if !(a[i] == b[i]) {
            assert(str_views(a@)[i as int] != str_views(b@)[i as int]);
            return false;
        }
        i = i + 1;
    }
    assert(str_views(a@) =~= str_views(b@));
    true
}

/// The fingerprint of a formatter, enough to notice that it changed.
#[derive(Debug, Clone, PartialEq, Eq)]
pub struct FormatterInfo {
    /// Absolute path to the command
    pub command: String,
    /// Absolute and symlink-resolved path to the command
    pub command_resolved: String,
    /// formatter options
    pub options: Vec<String>,
    /// work_dir
    pub work_dir: String,
    /// Metadata of the command
    pub command_meta: FileMeta,
    /// Metadata of the resolved command
    pub command_resolved_meta: FileMeta,
}

impl FormatterInfo {
    /// Two fingerprints agree on every field.
    pub open spec fn same(self, o: FormatterInfo) -> bool {
        &&& self.command@ == o.command@
        &&& self.command_resolved@ == o.command_resolved@
        &&& str_views(self.options@) == str_views(o.options@)
        &&& self.work_dir@ == o.work_dir@
        &&& self.command_meta == o.command_meta
        &&& self.command_resolved_meta == o.command_resolved_meta
    }

    /// Returns true if both fingerprints agree on every field.
    pub fn same_as(&self, o: &FormatterInfo) -> (r: bool)
        ensures
            r == self.same(*o),
    {
        self.command == o.command && self.command_resolved == o.command_resolved
            && strings_equal(&self.options, &o.options) && self.work_dir == o.work_dir
            && self.command_meta == o.command_meta && self.command_resolved_meta
            == o.command_resolved_meta
    }

    /// A copy that agrees on every field.
    pub fn copied(&self) -> (r: FormatterInfo)
        ensures
            r.same(*self),
    {
        let options = self.options.clone();
        assert(str_views(options@) =~= str_views(self.options@));
        FormatterInfo {
            command: self.command.clone(),
            command_resolved: self.command_resolved.clone(),
            options,
            work_dir: self.work_dir.clone(),
            command_meta: self.command_meta,
            command_resolved_meta: self.command_resolved_meta,
        }
    }
}

/// A formatter's recorded fingerprint.
#[derive(Debug, Clone, PartialEq, Eq)]
pub struct FormatterRecord {
    /// The formatter
    pub name: FormatterName,
    /// Its fingerprint
    pub info: FormatterInfo,
}

/// A configured formatter with its fresh fingerprint, or none when it could not be taken.
#[derive(Debug, Clone, PartialEq, Eq)]
pub struct FormatterProbe {
    /// The formatter
    pub name: FormatterName,
    /// Its fingerprint, if it could be taken
    pub info: Option<FormatterInfo>,
}

/// What a list of records denotes: name to fingerprint, a later record winning.
pub open spec fn info_map(s: Seq<FormatterRecord>) -> Map<Seq<char>, FormatterInfo>
    decreases s.len(),
{
    if s.len() == 0 {
        Map::empty()
    } else {
        info_map(s.drop_last()).insert(s.last().name@, s.last().info)
    }
}

/// The fingerprints that a list of probes yields: name to fingerprint, for the probes
/// that have one, a later one winning.
pub open spec fn probe_map(s: Seq<FormatterProbe>) -> Map<Seq<char>, FormatterInfo>
    decreases s.len(),
{
    if s.len() == 0 {
        Map::empty()
    } else {
        match s.last().info {
            Some(i) => probe_map(s.drop_last()).insert(s.last().name@, i),
            None => probe_map(s.drop_last()),
        }
    }
}

/// A formatter's cached paths survive a refresh of the fingerprints when it had none
/// before, or when its fresh fingerprint equals the old one.
pub open spec fn stays(
    old: Map<Seq<char>, FormatterInfo>,
    new: Map<Seq<char>, FormatterInfo>,
    n: Seq<char>,
) -> bool {
    !old.contains_key(n) || (new.contains_key(n) && old[n].same(new[n]))
}

/// The names whose cached paths survive a refresh.
pub open spec fn kept_names(
    old: Map<Seq<char>, FormatterInfo>,
    new: Map<Seq<char>, FormatterInfo>,
) -> Set<Seq<char>> {
    Set::new(|n: Seq<char>| stays(old, new, n))
}

/// The entries of `s` that the previous states `prev` do not already hold exactly.
pub open spec fn unchanged_dropped(prev: Map<Seq<char>, FileMeta>, s: Seq<FileEntry>) -> Seq<FileEntry>
    decreases s.len(),
{
    if s.len() == 0 {
        s
    } else if prev.contains_key(s.last().path@) && prev[s.last().path@] == s.last().meta {
        unchanged_dropped(prev, s.drop_last())
    } else {
        unchanged_dropped(prev, s.drop_last()).push(s.last())
    }
}

/// The files of `m` that still need work against the cached states `cache`: all of
/// them when the formatter has no cached paths.
pub open spec fn still_pending(
    cache: Map<Seq<char>, Map<Seq<char>, FileMeta>>,
    m: FormatterMatches,
) -> Seq<FileEntry> {
    if cache.contains_key(m.name@) {
        unchanged_dropped(cache[m.name@], m.files@)
    } else {
        m.files@
    }
}

/// The cached states after one formatter's fresh observations are merged in.
pub open spec fn merged(
    cache: Map<Seq<char>, Map<Seq<char>, FileMeta>>,
    m: FormatterMatches,
) -> Map<Seq<char>, Map<Seq<char>, FileMeta>> {
    cache.insert(
        m.name@,
        if cache.contains_key(m.name@) {
            cache[m.name@].union_prefer_right(meta_map(m.files@))
        } else {
            meta_map(m.files@)
        },
    )
}

/// The cached states after fresh observations are merged in, in order.
pub open spec fn merged_all(
    cache: Map<Seq<char>, Map<Seq<char>, FileMeta>>,
    s: Seq<FormatterMatches>,
) -> Map<Seq<char>, Map<Seq<char>, FileMeta>>
    decreases s.len(),
{
    if s.len() == 0 {
        cache
    } else {
        merged(merged_all(cache, s.drop_last()), s.last())
    }
}

proof fn lemma_info_map_last(s: Seq<FormatterRecord>, i: int)
    requires
        0 <= i < s.len(),
        forall|j: int| i < j < s.len() ==> s[j].name@ != s[i].name@,
    ensures
        info_map(s).contains_key(s[i].name@),
        info_map(s)[s[i].name@] == s[i].info,
    decreases s.len(),
{
    if i < s.len() - 1 {
        lemma_info_map_last(s.drop_last(), i);
    }
}

proof fn lemma_info_map_absent(s: Seq<FormatterRecord>, n: Seq<char>)
    requires
        forall|j: int| 0 <= j < s.len() ==> s[j].name@ != n,
    ensures
        !info_map(s).contains_key(n),
    decreases s.len(),
{
    if s.len() > 0 {
        lemma_info_map_absent(s.drop_last(), n);
    }
}

/// Finds the record that the map view gives for `name`.
fn find_record(s: &Vec<FormatterRecord>, name: &FormatterName) -> (r: Option<usize>)
    ensures
        r is Some <==> info_map(s@).contains_key(name@),
        r matches Some(i) ==> i < s@.len() && info_map(s@)[name@] == s@[i as int].info,
{
    let mut i: usize = s.len();
    while i > 0
        invariant
            i <= s@.len(),
            forall|j: int| i <= j < s@.len() ==> s@[j].name@ != name@,
        decreases i,
    {
        if s[i - 1].name.0 == name.0 {
            proof {
                lemma_info_map_last(s@, i - 1);
            }
            return Some(i - 1);
        }
        i = i - 1;
    }
    proof {
        lemma_info_map_absent(s@, name@);
    }
    None
}

/// The states of a list of entries, as a map keyed by path.
pub fn index_entries(v: &Vec<FileEntry>) -> (r: StringHashMap<FileMeta>)
    ensures
        r@ == meta_map(v@),
{
    let mut m: StringHashMap<FileMeta> = StringHashMap::new();
    let mut i: usize = 0;
    while i < v.len()
        invariant
            i <= v@.len(),
            m@ == meta_map(v@.take(i as int)),
        decreases v@.len() - i,
    {
        m.insert(v[i].path.clone(), v[i].meta);
        assert(v@.take(i + 1).drop_last() =~= v@.take(i as int));
        i = i + 1;
    }
    assert(v@.take(v@.len() as int) =~= v@);
    m
}

/// The entries of `v` that `prev` does not already hold exactly.
fn pending_entries(prev: &StringHashMap<FileMeta>, v: &Vec<FileEntry>) -> (r: Vec<FileEntry>)
    ensures
        r@ == unchanged_dropped(prev@, v@),
{
    let mut out: Vec<FileEntry> = Vec::new();
    let mut i: usize = 0;
    while i < v.len()
        invariant
            i <= v@.len(),
            out@ == unchanged_dropped(prev@, v@.take(i as int)),
        decreases v@.len() - i,
    {
        assert(v@.take(i + 1).drop_last() =~= v@.take(i as int));
        let same = match prev.get(v[i].path.as_str()) {
            Some(old_meta) => *old_meta == v[i].meta,
            None => false,
        };
        if !same {
            out.push(v[i].clone());
        }
        i = i + 1;
    }
    assert(v@.take(v@.len() as int) =~= v@);
    out
}

/// The entries of `base` overlaid with `top`, whose states are `incoming`: the entries
/// of `base` for paths that `top` lacks, then those of `top`.
fn overlay_entries(base: &Vec<FileEntry>, incoming: &StringHashMap<FileMeta>, top: &Vec<FileEntry>) -> (r: Vec<FileEntry>)
    requires
        incoming@ == meta_map(top@),
    ensures
        meta_map(r@) == meta_map(base@).union_prefer_right(meta_map(top@)),
{
    let ghost keys = incoming@.dom();
    let mut out: Vec<FileEntry> = Vec::new();
    let mut i: usize = 0;
    while i < base.len()
        invariant
            i <= base@.len(),
            keys == incoming@.dom(),
            out@ == files_without(base@.take(i as int), keys),
        decreases base@.len() - i,
    {
        assert(base@.take(i + 1).drop_last() =~= base@.take(i as int));
        if !incoming.contains_key(base[i].path.as_str()) {
            out.push(base[i].clone());
        }
        i = i + 1;
    }
    assert(base@.take(base@.len() as int) =~= base@);
    let ghost first = out@;
    let mut j: usize = 0;
    while j < top.len()
        invariant
            j <= top@.len(),
            out@ == first + top@.take(j as int),
        decreases top@.len() - j,
    {
        out.push(top[j].clone());
        assert(first + top@.take(j + 1) =~= (first + top@.take(j as int)).push(top@[j as int]));
        j = j + 1;
    }
    assert(top@.take(top@.len() as int) =~= top@);
    proof {
        lemma_meta_map_append(first, top@);
        lemma_files_without(base@, keys);
        assert(meta_map(base@).remove_keys(keys).union_prefer_right(meta_map(top@)) =~= meta_map(base@).union_prefer_right(meta_map(top@)));
    }
    out
}

/// The persisted cache: last-seen fingerprints and file states, and the discovery cursor.
#[derive(Debug, Clone)]
pub struct CacheManifest {
    /// The fingerprint of each formatter
    pub formatters: Vec<FormatterRecord>,
    /// The last-seen file states of each formatter
    pub matches: Vec<FormatterMatches>,
    /// Cursor of the change-notification service, if any
    pub clock: Option<String>,
}

impl CacheManifest {
    /// The fingerprints, by formatter name.
    pub open spec fn infos(&self) -> Map<Seq<char>, FormatterInfo> {
        info_map(self.formatters@)
    }

    /// The cached file states, by formatter name.
    pub open spec fn states(&self) -> Map<Seq<char>, Map<Seq<char>, FileMeta>> {
        match_map(self.matches@)
    }

    /// Every formatter with cached paths has a fingerprint.
    pub open spec fn wf(&self) -> bool {
        self.states().dom().subset_of(self.infos().dom())
    }

    /// An empty cache.
    pub fn new() -> (r: CacheManifest)
        ensures
            r.formatters@.len() == 0,
            r.matches@.len() == 0,
            r.clock is None,
            r.infos() == Map::<Seq<char>, FormatterInfo>::empty(),
            r.states() == Map::<Seq<char>, Map<Seq<char>, FileMeta>>::empty(),
            r.wf(),
    {
        let r = CacheManifest { formatters: Vec::new(), matches: Vec::new(), clock: None };
        assert(r.states().dom() =~= Set::empty());
        r
    }

    /// Records the fresh fingerprints. A formatter whose fingerprint changed, or that
    /// has none any more, loses all its cached paths.
    pub fn update_formatters(&mut self, probes: Vec<FormatterProbe>)
        ensures
            final(self).infos() == probe_map(probes@),
            final(self).matches@ == formatters_kept(
                old(self).matches@,
                kept_names(old(self).infos(), probe_map(probes@)),
            ),
            final(self).states() == old(self).states().restrict(
                kept_names(old(self).infos(), probe_map(probes@)),
            ),
            final(self).clock == old(self).clock,
            old(self).wf() ==> final(self).wf(),
    {
        let mut probes = probes;
        let ghost given = probes@;
        let mut records: Vec<FormatterRecord> = Vec::new();
        let mut i: usize = 0;
        while i < probes.len()
            invariant
                i <= probes@.len(),
                probes@.len() == given.len(),
                forall|k: int| i <= k < given.len() ==> probes@[k] == given[k],
                info_map(records@) == probe_map(given.take(i as int)),
            decreases probes@.len() - i,
        {
            let ghost before = records@;
            let mut probe = FormatterProbe { name: FormatterName(String::new()), info: None };
            probes.set_and_swap(i, &mut probe);
            assert(probe == given[i as int]);
            assert(given.take(i + 1).drop_last() =~= given.take(i as int));
            match probe.info {
                Some(info) => {
                    records.push(FormatterRecord { name: probe.name, info });
                    assert(records@.drop_last() =~= before);
                },
                None => {},
            }
            i = i + 1;
        }
        assert(given.take(given.len() as int) =~= given);
        let ghost keep = kept_names(self.infos(), probe_map(given));
        let mut olds: Vec<FormatterMatches> = Vec::new();
        std::mem::swap(&mut olds, &mut self.matches);
        let ghost prior = olds@;
        let mut kept: Vec<FormatterMatches> = Vec::new();
        let mut j: usize = 0;
        while j < olds.len()
            invariant
                j <= olds@.len(),
                olds@.len() == prior.len(),
                forall|k: int| j <= k < prior.len() ==> olds@[k] == prior[k],
                info_map(records@) == probe_map(given),
                keep == kept_names(info_map(self.formatters@), probe_map(given)),
                kept@ == formatters_kept(prior.take(j as int), keep),
            decreases olds@.len() - j,
        {
            let mut entry = FormatterMatches { name: FormatterName(String::new()), files: Vec::new() };
            olds.set_and_swap(j, &mut entry);
            assert(entry == prior[j as int]);
            let stay = match find_record(&self.formatters, &entry.name) {
                None => true,
                Some(k) => match find_record(&records, &entry.name) {
                    None => false,
                    Some(m) => self.formatters[k].info.same_as(&records[m].info),
                },
            };
            assert(stay == keep.contains(entry.name@));
            assert(prior.take(j + 1).drop_last() =~= prior.take(j as int));
            if stay {
                kept.push(entry);
            }
            j = j + 1;
        }
        assert(prior.take(prior.len() as int) =~= prior);
        proof {
            lemma_formatters_kept(prior, keep);
        }
        self.formatters = records;
        self.matches = kept;
    }

    /// Returns, for each formatter in `matches`, the files that need work: those whose
    /// metadata differs from the cached state or that have none; all of its files when
    /// the formatter has no cached paths.
    pub fn filter_matches(&self, matches: Vec<FormatterMatches>) -> (r: Vec<FormatterMatches>)
        ensures
            r@.len() == matches@.len(),
            forall|k: int|
                0 <= k < matches@.len() ==> #[trigger] r@[k].name@ == matches@[k].name@
                    && r@[k].files@ == still_pending(self.states(), matches@[k]),
    {
        let mut out: Vec<FormatterMatches> = Vec::new();
        let mut k: usize = 0;
        while k < matches.len()
            invariant
                k <= matches@.len(),
                out@.len() == k,
                forall|q: int|
                    0 <= q < k ==> #[trigger] out@[q].name@ == matches@[q].name@
                        && out@[q].files@ == still_pending(self.states(), matches@[q]),
            decreases matches@.len() - k,
        {
            let m = &matches[k];
            let files = match find_formatter(&self.matches, &m.name) {
                None => copy_entries(&m.files),
                Some(i) => {
                    let prev = index_entries(&self.matches[i].files);
                    pending_entries(&prev, &m.files)
                },
            };
            out.push(FormatterMatches { name: m.name.clone(), files });
            k = k + 1;
        }
        out
    }

    /// Merges fresh observations into the cached states: each observed path is recorded
    /// with its new metadata, whether or not it changed.
    pub fn add_results(&mut self, matches: Vec<FormatterMatches>)
        ensures
            final(self).states() == merged_all(old(self).states(), matches@),
            final(self).formatters == old(self).formatters,
            final(self).clock == old(self).clock,
    {
        let mut matches = matches;
        let ghost given = matches@;
        let mut k: usize = 0;
        while k < matches.len()
            invariant
                k <= matches@.len(),
                matches@.len() == given.len(),
                forall|q: int| k <= q < given.len() ==> matches@[q] == given[q],
                self.states() == merged_all(old(self).states(), given.take(k as int)),
                self.formatters == old(self).formatters,
                self.clock == old(self).clock,
            decreases matches@.len() - k,
        {
            let mut m = FormatterMatches { name: FormatterName(String::new()), files: Vec::new() };
            matches.set_and_swap(k, &mut m);
            assert(m == given[k as int]);
            assert(given.take(k + 1).drop_last() =~= given.take(k as int));
            let ghost before = self.states();
            match find_formatter(&self.matches, &m.name) {
                None => {
                    let ghost s0 = self.matches@;
                    self.matches.push(m);
                    assert(self.matches@.drop_last() =~= s0);
                },
                Some(i) => {
                    let incoming = index_entries(&m.files);
                    let files = overlay_entries(&self.matches[i].files, &incoming, &m.files);
                    let ghost s0 = self.matches@;
                    let ghost name = m.name@;
                    let entry = FormatterMatches { name: m.name, files };
                    proof {
                        lemma_match_map_update_last(s0, i as int, entry);
                    }
                    self.matches.set(i, entry);
                    assert(self.states() =~= merged(before, given[k as int]));
                },
            }
            k = k + 1;
        }
        assert(given.take(given.len() as int) =~= given);
    }
}


/// No two entries of `s` name the same path.
pub open spec fn paths_distinct(s: Seq<FileEntry>) -> bool {
    forall|i: int, j: int| 0 <= i < j < s.len() ==> s[i].path@ != s[j].path@
}

/// No two entries of `s` name the same formatter, and none lists a path twice.
pub open spec fn match_set_distinct(s: Seq<FormatterMatches>) -> bool {
    &&& forall|i: int, j: int| 0 <= i < j < s.len() ==> s[i].name@ != s[j].name@
    &&& forall|i: int| 0 <= i < s.len() ==> paths_distinct(#[trigger] s[i].files@)
}

proof fn lemma_meta_map_holds(s: Seq<FileEntry>, i: int)
    requires
        paths_distinct(s),
        0 <= i < s.len(),
    ensures
        meta_map(s).contains_key(s[i].path@),
        meta_map(s)[s[i].path@] == s[i].meta,
    decreases s.len(),
{
    if i < s.len() - 1 {
        lemma_meta_map_holds(s.drop_last(), i);
    }
}

proof fn lemma_nothing_pending(prev: Map<Seq<char>, FileMeta>, s: Seq<FileEntry>)
    requires
        forall|i: int|
            0 <= i < s.len() ==> prev.contains_key(#[trigger] s[i].path@) && prev[s[i].path@]
                == s[i].meta,
    ensures
        unchanged_dropped(prev, s).len() == 0,
    decreases s.len(),
{
    if s.len() > 0 {
        assert(prev.contains_key(s[s.len() - 1].path@));
        lemma_nothing_pending(prev, s.drop_last());
    }
}

proof fn lemma_merged_all_holds(
    states: Map<Seq<char>, Map<Seq<char>, FileMeta>>,
    m: Seq<FormatterMatches>,
    k: int,
    p: Seq<char>,
)
    requires
        match_set_distinct(m),
        0 <= k < m.len(),
        meta_map(m[k].files@).contains_key(p),
    ensures
        merged_all(states, m).contains_key(m[k].name@),
        merged_all(states, m)[m[k].name@].contains_key(p),
        merged_all(states, m)[m[k].name@][p] == meta_map(m[k].files@)[p],
    decreases m.len(),
{
    if k < m.len() - 1 {
        let prefix = m.drop_last();
        assert(match_set_distinct(prefix)) by {
            assert forall|i: int| 0 <= i < prefix.len() implies paths_distinct(#[trigger] prefix[i].files@) by {
                assert(prefix[i] == m[i]);
            }
        }
        lemma_merged_all_holds(states, prefix, k, p);
        assert(m.last().name@ != m[k].name@);
    }
}

/// Once the observations of a run are recorded, filtering the same observations again
/// leaves nothing to do for any formatter.
pub proof fn law_filter_after_record(
    states: Map<Seq<char>, Map<Seq<char>, FileMeta>>,
    m: Seq<FormatterMatches>,
)
    requires
        match_set_distinct(m),
    ensures
        forall|k: int|
            0 <= k < m.len() ==> (#[trigger] still_pending(merged_all(states, m), m[k])).len()
                == 0,
{
    assert forall|k: int| 0 <= k < m.len() implies (#[trigger] still_pending(merged_all(states, m), m[k])).len() == 0 by {
        let files = m[k].files@;
        let cached = merged_all(states, m);
        assert(paths_distinct(files));
        assert forall|i: int| 0 <= i < files.len() implies cached[m[k].name@].contains_key(#[trigger] files[i].path@)
            && cached[m[k].name@][files[i].path@] == files[i].meta by {
            lemma_meta_map_holds(files, i);
            lemma_merged_all_holds(states, m, k, files[i].path@);
        }
        if files.len() > 0 {
            lemma_meta_map_holds(files, 0);
            lemma_merged_all_holds(states, m, k, files[0].path@);
        } else {
            assert(unchanged_dropped(Map::empty(), files).len() == 0);
        }
        lemma_nothing_pending(cached[m[k].name@], files);
    }
}

/// A formatter whose working directory or options changed loses all its cached paths
/// when the fingerprints are refreshed; a formatter whose fingerprint is unchanged
/// keeps its cached paths as they were.
pub proof fn law_drift_invalidates(
    cache: CacheManifest,
    probes: Seq<FormatterProbe>,
    changed: Seq<char>,
    other: Seq<char>,
)
    requires
        cache.infos().contains_key(changed),
        probe_map(probes).contains_key(changed),
        cache.infos()[changed].work_dir@ != probe_map(probes)[changed].work_dir@ || str_views(
            cache.infos()[changed].options@,
        ) != str_views(probe_map(probes)[changed].options@),
        cache.infos().contains_key(other),
        probe_map(probes).contains_key(other),
        cache.infos()[other].same(probe_map(probes)[other]),
        cache.states().contains_key(other),
    ensures
        !cache.states().restrict(kept_names(cache.infos(), probe_map(probes))).contains_key(changed),
        cache.states().restrict(kept_names(cache.infos(), probe_map(probes))).contains_key(other),
        cache.states().restrict(kept_names(cache.infos(), probe_map(probes)))[other]
            == cache.states()[other],
{
    assert(!kept_names(cache.infos(), probe_map(probes)).contains(changed));
    assert(kept_names(cache.infos(), probe_map(probes)).contains(other));
}

/// A formatter that is no longer configured loses its fingerprint and all its cached
/// paths when the fingerprints are refreshed.
pub proof fn law_removed_formatter_pruned(
    cache: CacheManifest,
    probes: Seq<FormatterProbe>,
    removed: Seq<char>,
)
    requires
        cache.infos().contains_key(removed),
        forall|i: int| 0 <= i < probes.len() ==> (#[trigger] probes[i]).name@ != removed,
    ensures
        !probe_map(probes).contains_key(removed),
        !cache.states().restrict(kept_names(cache.infos(), probe_map(probes))).contains_key(removed),
{
    lemma_probe_map_absent(probes, removed);
    assert(!kept_names(cache.infos(), probe_map(probes)).contains(removed));
}

proof fn lemma_probe_map_absent(s: Seq<FormatterProbe>, n: Seq<char>)
    requires
        forall|i: int| 0 <= i < s.len() ==> (#[trigger] s[i]).name@ != n,
    ensures
        !probe_map(s).contains_key(n),
    decreases s.len(),
{
    if s.len() > 0 {
        assert(s[s.len() - 1].name@ != n);
        lemma_probe_map_absent(s.drop_last(), n);
    }
}

/// The SHA-1 digest of `b`.
pub uninterp spec fn sha1_of(b: Seq<u8>) -> Seq<u8>;

/// Relies on sha1::Sha1::digest (the `Digest` trait): the SHA-1 digest of the bytes,
/// which is 20 bytes long.
#[verifier::external_body]
fn sha1_digest(b: &[u8]) -> (r: Vec<u8>)
    ensures
        r@ == sha1_of(b@),
        r@.len() == 20,
{
    sha1::Sha1::digest(b).to_vec()
}

/// The lower-case hex digit of `n`, below 16.
pub open spec fn hex_digit(n: u8) -> char {
    match n {
        0 => '0',
        1 => '1',
        2 => '2',
        3 => '3',
        4 => '4',
        5 => '5',
        6 => '6',
        7 => '7',
        8 => '8',
        9 => '9',
        10 => 'a',
        11 => 'b',
        12 => 'c',
        13 => 'd',
        14 => 'e',
        15 => 'f',
        _ => '?',
    }
}

/// Two lower-case hex digits for each byte, in order.
pub open spec fn hex_of(b: Seq<u8>) -> Seq<char>
    decreases b.len(),
{
    if b.len() == 0 {
        Seq::empty()
    } else {
        hex_of(b.drop_last()) + seq![hex_digit(b.last() / 16), hex_digit(b.last() % 16)]
    }
}

/// The hex digit of `d` as a string.
fn hex_digit_str(d: u8) -> (r: &'static str)
    requires
        d < 16,
    ensures
        r@ == seq![hex_digit(d)],
{
    proof {
        reveal_strlit("0");
        reveal_strlit("1");
        reveal_strlit("2");
        reveal_strlit("3");
        reveal_strlit("4");
        reveal_strlit("5");
        reveal_strlit("6");
        reveal_strlit("7");
        reveal_strlit("8");
        reveal_strlit("9");
        reveal_strlit("a");
        reveal_strlit("b");
        reveal_strlit("c");
        reveal_strlit("d");
        reveal_strlit("e");
        reveal_strlit("f");
    }
    let r = match d {
        0 => "0",
        1 => "1",
        2 => "2",
        3 => "3",
        4 => "4",
        5 => "5",
        6 => "6",
        7 => "7",
        8 => "8",
        9 => "9",
        10 => "a",
        11 => "b",
        12 => "c",
        13 => "d",
        14 => "e",
        15 => "f",
        _ => "f",
    };
    assert(r@ =~= seq![hex_digit(d)]);
    r
}

/// Writes the bytes as lower-case hex, two digits for each byte.
pub fn hex_string(b: &Vec<u8>) -> (r: String)
    ensures
        r@ == hex_of(b@),
{
    let mut out = String::new();
    let mut i: usize = 0;
    while i < b.len()
        invariant
            i <= b@.len(),
            out@ == hex_of(b@.take(i as int)),
        decreases b@.len() - i,
    {
        let byte = b[i];
        out.append(hex_digit_str(byte / 16));
        out.append(hex_digit_str(byte % 16));
        assert(b@.take(i + 1).drop_last() =~= b@.take(i as int));
        assert(out@ =~= hex_of(b@.take(i + 1)));
        i = i + 1;
    }
    assert(b@.take(b@.len() as int) =~= b@);
    out
}

/// The file name of the cache manifest of a configuration file: the hex SHA-1 digest
/// of its path, with the `.toml` extension.
pub open spec fn manifest_name(bytes: Seq<u8>) -> Seq<char> {
    hex_of(sha1_of(bytes)) + seq!['.', 't', 'o', 'm', 'l']
}

/// Derives the manifest path from the configuration file's path: one manifest per
/// configuration file, under the cache directory.
pub fn get_manifest_path(cache_dir: &str, treefmt_toml: &str) -> (r: String)
    requires
        is_abs(cache_dir@),
        is_abs(treefmt_toml@),
    ensures
        r@ == joined(cache_dir@, manifest_name(treefmt_toml.spec_bytes())),
{
    let digest = sha1_digest(treefmt_toml.as_bytes());
    let mut name = hex_string(&digest);
    proof {
        reveal_strlit(".toml");
    }
    name.append(".toml");
    assert(name@ =~= manifest_name(treefmt_toml.spec_bytes()));
    join_path(cache_dir, name.as_str())
}

/// A path in the map of a list of entries comes from one of them.
proof fn lemma_meta_map_from_entry(s: Seq<FileEntry>, p: Seq<char>)
    requires
        meta_map(s).contains_key(p),
    ensures
        exists|i: int| 0 <= i < s.len() && (#[trigger] s[i]).path@ == p,
    decreases s.len(),
{
    if s.last().path@ != p {
        lemma_meta_map_from_entry(s.drop_last(), p);
        let i = choose|i: int| 0 <= i < s.drop_last().len() && (#[trigger] s.drop_last()[i]).path@ == p;
        assert(s[i] == s.drop_last()[i]);
    } else {
        assert(s[s.len() - 1].path@ == p);
    }
}

/// The states of `m` that `prev` does not already hold.
pub open spec fn pending_map(prev: Map<Seq<char>, FileMeta>, m: Map<Seq<char>, FileMeta>) -> Map<Seq<char>, FileMeta> {
    Map::new(|p: Seq<char>| m.contains_key(p) && !(prev.contains_key(p) && prev[p] == m[p]), |p: Seq<char>| m[p])
}

proof fn lemma_pending_map(prev: Map<Seq<char>, FileMeta>, s: Seq<FileEntry>)
    requires
        paths_distinct(s),
    ensures
        meta_map(unchanged_dropped(prev, s)) == pending_map(prev, meta_map(s)),
    decreases s.len(),
{
    if s.len() == 0 {
        assert(pending_map(prev, meta_map(s)) =~= Map::empty());
    } else {
        let init = s.drop_last();
        let e = s.last();
        assert(paths_distinct(init)) by {
            assert forall|i: int, j: int| 0 <= i < j < init.len() implies init[i].path@ != init[j].path@ by {
                assert(init[i] == s[i] && init[j] == s[j]);
            }
        }
        lemma_pending_map(prev, init);
        if meta_map(init).contains_key(e.path@) {
            lemma_meta_map_from_entry(init, e.path@);
            let i = choose|i: int| 0 <= i < init.len() && (#[trigger] init[i]).path@ == e.path@;
            assert(s[i] == init[i]);
            assert(false);
        }
        let rest = unchanged_dropped(prev, init);
        if !(prev.contains_key(e.path@) && prev[e.path@] == e.meta) {
            assert(rest.push(e).drop_last() =~= rest);
        }
        assert(meta_map(unchanged_dropped(prev, s)) =~= pending_map(prev, meta_map(s)));
    }
}

proof fn lemma_merged_all_other(
    states: Map<Seq<char>, Map<Seq<char>, FileMeta>>,
    s: Seq<FormatterMatches>,
    n: Seq<char>,
)
    requires
        forall|i: int| 0 <= i < s.len() ==> (#[trigger] s[i]).name@ != n,
    ensures
        merged_all(states, s).contains_key(n) == states.contains_key(n),
        states.contains_key(n) ==> merged_all(states, s)[n] == states[n],
    decreases s.len(),
{
    if s.len() > 0 {
        assert(s[s.len() - 1].name@ != n);
        lemma_merged_all_other(states, s.drop_last(), n);
    }
}

proof fn lemma_merged_all_at(states: Map<Seq<char>, Map<Seq<char>, FileMeta>>, s: Seq<FormatterMatches>, k: int)
    requires
        0 <= k < s.len(),
        forall|i: int, j: int| 0 <= i < j < s.len() ==> s[i].name@ != s[j].name@,
    ensures
        merged_all(states, s).contains_key(s[k].name@),
        merged_all(states, s)[s[k].name@] == merged(states, s[k])[s[k].name@],
    decreases s.len(),
{
    let init = s.drop_last();
    if k == s.len() - 1 {
        assert forall|i: int| 0 <= i < init.len() implies (#[trigger] init[i]).name@ != s[k].name@ by {
            assert(init[i] == s[i]);
        }
        lemma_merged_all_other(states, init, s[k].name@);
    } else {
        lemma_merged_all_at(states, init, k);
        assert(init[k] == s[k]);
    }
}

/// After a run records the files that filtering left to do, with the metadata they
/// had, filtering the same discovered files again leaves nothing to do.
pub proof fn law_second_filter_empty(
    states: Map<Seq<char>, Map<Seq<char>, FileMeta>>,
    m: Seq<FormatterMatches>,
    first: Seq<FormatterMatches>,
)
    requires
        match_set_distinct(m),
        first.len() == m.len(),
        forall|k: int| 0 <= k < m.len() ==> (#[trigger] first[k]).name@ == m[k].name@
            && first[k].files@ == still_pending(states, m[k]),
    ensures
        forall|k: int| 0 <= k < m.len() ==> (#[trigger] still_pending(merged_all(states, first), m[k])).len() == 0,
{
    assert forall|k: int| 0 <= k < m.len() implies (#[trigger] still_pending(merged_all(states, first), m[k])).len() == 0 by {
        let n = m[k].name@;
        let files = m[k].files@;
        assert(paths_distinct(files));
        assert forall|i: int, j: int| 0 <= i < j < first.len() implies first[i].name@ != first[j].name@ by {
            assert(first[i].name@ == m[i].name@ && first[j].name@ == m[j].name@);
        }
        lemma_merged_all_at(states, first, k);
        let cached = merged_all(states, first)[n];
        if states.contains_key(n) {
            lemma_pending_map(states[n], files);
        }
        assert forall|i: int| 0 <= i < files.len() implies cached.contains_key(#[trigger] files[i].path@)
            && cached[files[i].path@] == files[i].meta by {
            lemma_meta_map_holds(files, i);
        }
        lemma_nothing_pending(cached, files);
    }
}

} // verus!
