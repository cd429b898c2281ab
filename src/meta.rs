//! File metadata snapshots, formatter names, and match sets with their map views.
use vstd::prelude::*;

verus! {

/// A snapshot of a file's modification time and size, the unit of change detection.
#[derive(Debug, Clone, Copy, PartialEq, Eq, Structural, PartialOrd, Ord, Hash)]
pub struct FileMeta {
    /// File mtime, in seconds since the epoch
    pub mtime: i64,
    /// File size, in bytes
    pub size: u64,
}

/// One path with the metadata observed for it.
#[derive(Debug, PartialEq, Eq)]
pub struct FileEntry {
    /// Absolute path of the file
    pub path: String,
    /// Its metadata
    pub meta: FileMeta,
}

impl Clone for FileEntry {
    fn clone(&self) -> (r: FileEntry)
        ensures
            r == *self,
    {
        FileEntry { path: self.path.clone(), meta: self.meta }
    }
}

/// A copy of a list of entries.
pub fn copy_entries(v: &Vec<FileEntry>) -> (r: Vec<FileEntry>)
    ensures
        r@ == v@,
{
    let mut out: Vec<FileEntry> = Vec::new();
    let mut i: usize = 0;
    while i < v.len()
        invariant
            i <= v@.len(),
            out@ == v@.take(i as int),
        decreases v@.len() - i,
    {
        out.push(v[i].clone());
        assert(v@.take(i + 1) =~= v@.take(i as int).push(v@[i as int]));
        i = i + 1;
    }
    assert(v@.take(v@.len() as int) =~= v@);
    out
}

/// Name of a formatter, its key in the configuration and in the cache.
#[derive(Debug, PartialEq, Eq, PartialOrd, Ord, Hash)]
pub struct FormatterName(pub String);

impl View for FormatterName {
    type V = Seq<char>;

    open spec fn view(&self) -> Seq<char> {
        self.0@
    }
}

impl Clone for FormatterName {
    fn clone(&self) -> (r: FormatterName)
        ensures
            r@ == self@,
    {
        FormatterName(self.0.clone())
    }
}

impl FormatterName {
    /// A formatter name from its text.
    pub fn new(name: &str) -> (r: FormatterName)
        ensures
            r@ == name@,
    {
        FormatterName(String::from_str(name))
    }

    /// The name's text.
    pub fn as_str(&self) -> (r: &str)
        ensures
            r@ == self@,
    {
        self.0.as_str()
    }

    /// The name as shown to users: `#` and the name.
    pub fn display_name(&self) -> (r: String)
        ensures
            r@ == seq!['#'] + self@,
    {
        proof {
            reveal_strlit("#");
        }
        let mut r = String::from_str("#");
        r.append(self.0.as_str());
        r
    }
}

/// The files that currently match one formatter, each with its metadata.
#[derive(Debug, PartialEq, Eq)]
pub struct FormatterMatches {
    /// The formatter
    pub name: FormatterName,
    /// Its files; a later entry for a path overrides an earlier one
    pub files: Vec<FileEntry>,
}

impl Clone for FormatterMatches {
    fn clone(&self) -> (r: FormatterMatches)
        ensures
            r.name@ == self.name@,
            r.files@ == self.files@,
    {
        FormatterMatches { name: self.name.clone(), files: copy_entries(&self.files) }
    }
}

/// The paths that changed for one formatter.
#[derive(Debug, Clone, PartialEq, Eq)]
pub struct ChangedFiles {
    /// The formatter
    pub name: FormatterName,
    /// The paths whose metadata differs
    pub paths: Vec<String>,
}

/// What a list of entries denotes: path to metadata, a later entry winning.
pub open spec fn meta_map(s: Seq<FileEntry>) -> Map<Seq<char>, FileMeta>
    decreases s.len(),
{
    if s.len() == 0 {
        Map::empty()
    } else {
        meta_map(s.drop_last()).insert(s.last().path@, s.last().meta)
    }
}

/// What a match set denotes: formatter name to its path map, a later entry winning.
pub open spec fn match_map(s: Seq<FormatterMatches>) -> Map<Seq<char>, Map<Seq<char>, FileMeta>>
    decreases s.len(),
{
    if s.len() == 0 {
        Map::empty()
    } else {
        match_map(s.drop_last()).insert(s.last().name@, meta_map(s.last().files@))
    }
}

/// The entries of `s` whose path is not in `k`, in order.
pub open spec fn files_without(s: Seq<FileEntry>, k: Set<Seq<char>>) -> Seq<FileEntry>
    decreases s.len(),
{
    if s.len() == 0 {
        s
    } else if k.contains(s.last().path@) {
        files_without(s.drop_last(), k)
    } else {
        files_without(s.drop_last(), k).push(s.last())
    }
}

/// The entries of `s` whose names are in `keep`, in order.
pub open spec fn formatters_kept(s: Seq<FormatterMatches>, keep: Set<Seq<char>>) -> Seq<FormatterMatches>
    decreases s.len(),
{
    if s.len() == 0 {
        s
    } else if keep.contains(s.last().name@) {
        formatters_kept(s.drop_last(), keep).push(s.last())
    } else {
        formatters_kept(s.drop_last(), keep)
    }
}

/// Entries appended after others override them.
pub proof fn lemma_meta_map_append(a: Seq<FileEntry>, b: Seq<FileEntry>)
    ensures
        meta_map(a + b) == meta_map(a).union_prefer_right(meta_map(b)),
    decreases b.len(),
{
    if b.len() == 0 {
        assert(a + b =~= a);
        assert(meta_map(a).union_prefer_right(meta_map(b)) =~= meta_map(a));
    } else {
        lemma_meta_map_append(a, b.drop_last());
        assert((a + b).drop_last() =~= a + b.drop_last());
        assert((a + b).last() == b.last());
        assert(meta_map(a + b) =~= meta_map(a).union_prefer_right(meta_map(b)));
    }
}

/// Dropping the entries for some paths removes exactly those paths.
pub proof fn lemma_files_without(s: Seq<FileEntry>, k: Set<Seq<char>>)
    ensures
        meta_map(files_without(s, k)) == meta_map(s).remove_keys(k),
    decreases s.len(),
{
    if s.len() == 0 {
        assert(meta_map(s).remove_keys(k) =~= Map::empty());
    } else {
        lemma_files_without(s.drop_last(), k);
        let rest = files_without(s.drop_last(), k);
        if !k.contains(s.last().path@) {
            assert(rest.push(s.last()).drop_last() =~= rest);
            assert(meta_map(rest.push(s.last())) == meta_map(rest).insert(s.last().path@, s.last().meta));
        }
        assert(meta_map(files_without(s, k)) =~= meta_map(s).remove_keys(k));
    }
}

/// Keeping the formatters named in `keep` restricts the map to those names.
pub proof fn lemma_formatters_kept(s: Seq<FormatterMatches>, keep: Set<Seq<char>>)
    ensures
        match_map(formatters_kept(s, keep)) == match_map(s).restrict(keep),
    decreases s.len(),
{
    if s.len() == 0 {
        assert(match_map(s).restrict(keep) =~= Map::empty());
    } else {
        lemma_formatters_kept(s.drop_last(), keep);
        let rest = formatters_kept(s.drop_last(), keep);
        if keep.contains(s.last().name@) {
            assert(rest.push(s.last()).drop_last() =~= rest);
            assert(match_map(rest.push(s.last())) == match_map(rest).insert(s.last().name@, meta_map(s.last().files@)));
        }
        assert(match_map(formatters_kept(s, keep)) =~= match_map(s).restrict(keep));
    }
}

/// Replacing the last entry for a name sets that name alone.
pub proof fn lemma_match_map_update_last(s: Seq<FormatterMatches>, i: int, x: FormatterMatches)
    requires
        0 <= i < s.len(),
        s[i].name@ == x.name@,
        forall|j: int| i < j < s.len() ==> s[j].name@ != x.name@,
    ensures
        match_map(s.update(i, x)) == match_map(s).insert(x.name@, meta_map(x.files@)),
    decreases s.len(),
{
    if i == s.len() - 1 {
        assert(s.update(i, x).drop_last() =~= s.drop_last());
        assert(match_map(s.update(i, x)) =~= match_map(s).insert(x.name@, meta_map(x.files@)));
    } else {
        lemma_match_map_update_last(s.drop_last(), i, x);
        assert(s.update(i, x).drop_last() =~= s.drop_last().update(i, x));
        assert(match_map(s.update(i, x)) =~= match_map(s).insert(x.name@, meta_map(x.files@)));
    }
}

/// When no entry carries a name, the map has no key for it.
pub proof fn lemma_match_map_absent(s: Seq<FormatterMatches>, n: Seq<char>)
    requires
        forall|j: int| 0 <= j < s.len() ==> s[j].name@ != n,
    ensures
        !match_map(s).contains_key(n),
    decreases s.len(),
{
    if s.len() > 0 {
        lemma_match_map_absent(s.drop_last(), n);
    }
}

/// The entry at the last index carrying a name gives that name's value.
pub proof fn lemma_match_map_last(s: Seq<FormatterMatches>, i: int)
    requires
        0 <= i < s.len(),
        forall|j: int| i < j < s.len() ==> s[j].name@ != s[i].name@,
    ensures
        match_map(s).contains_key(s[i].name@),
        match_map(s)[s[i].name@] == meta_map(s[i].files@),
    decreases s.len(),
{
    if i < s.len() - 1 {
        lemma_match_map_last(s.drop_last(), i);
    }
}

/// Finds the last entry for `name`, which is the one the map view gives.
pub fn find_formatter(s: &Vec<FormatterMatches>, name: &FormatterName) -> (r: Option<usize>)
    ensures
        match r {
            Some(i) => i < s@.len() && s@[i as int].name@ == name@ && forall|j: int|
                i < j < s@.len() ==> s@[j].name@ != name@,
            None => forall|j: int| 0 <= j < s@.len() ==> s@[j].name@ != name@,
        },
        r is Some <==> match_map(s@).contains_key(name@),
        r matches Some(i) ==> match_map(s@)[name@] == meta_map(s@[i as int].files@),
{
    let mut i: usize = s.len();
    while i > 0
        invariant
            i <= s@.len(),
            forall|j: int| i <= j < s@.len() ==> s@[j].name@ != name@,
        decreases i,
    {
        if s[i - 1].name.0 == name.0 {
            proof {
                lemma_match_map_last(s@, i - 1);
            }
            return Some(i - 1);
        }
        i = i - 1;
    }
    proof {
        lemma_match_map_absent(s@, name@);
    }
    None
}

} // verus!
