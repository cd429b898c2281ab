//! The configuration schema, its defaults, and the search for the configuration file.
use crate::paths::{join_path, joined, parent_dir, parent_of};
use vstd::prelude::*;
use vstd::string::*;

verus! {

/// Name of the config file
pub const FILENAME: &'static str = "treefmt.toml";

/// Alternative name of the config file
pub const FILENAMEALT: &'static str = ".treefmt.toml";

/// Config that applies to every formatter
#[derive(Debug, Clone, PartialEq, Eq)]
pub struct GlobalConfig {
    /// Global globs to exclude files or folders for all formatters
    pub excludes: Vec<String>,
}

/// Config for each formatter
#[derive(Debug, Clone, PartialEq, Eq)]
pub struct FmtConfig {
    /// Command formatter to run
    pub command: String,
    /// Working directory for formatter
    pub work_dir: String,
    /// Arguments for formatter
    pub options: Vec<String>,
    /// Files or folders that are included to be formatted
    pub includes: Vec<String>,
    /// Files or folders that are excluded from formatting
    pub excludes: Vec<String>,
}

/// One named formatter section of the configuration.
#[derive(Debug, Clone, PartialEq, Eq)]
pub struct FormatterSection {
    /// The formatter's name, its key in the configuration
    pub name: String,
    /// Its settings
    pub config: FmtConfig,
}

/// The whole configuration: the global section and the formatter sections in key order.
#[derive(Debug, Clone, PartialEq, Eq)]
pub struct Root {
    /// Config that applies to every formatter
    pub global: Option<GlobalConfig>,
    /// The formatter sections, keyed by name
    pub formatter: Vec<FormatterSection>,
}

/// The default working directory of a formatter: the tree root itself.
pub fn cwd() -> (r: String)
    ensures
        r@ == seq!['.'],
{
    proof {
        reveal_strlit(".");
    }
    let r = String::from_str(".");
    assert(r@ =~= seq!['.']);
    r
}

impl GlobalConfig {
    /// The global section from its fields as read; a missing exclude list is empty.
    pub fn from_fields(excludes: Option<Vec<String>>) -> (r: GlobalConfig)
        ensures
            r.excludes@ == match excludes {
                Some(v) => v@,
                None => Seq::<String>::empty(),
            },
    {
        match excludes {
            Some(v) => GlobalConfig { excludes: v },
            None => GlobalConfig { excludes: Vec::new() },
        }
    }
}

impl FmtConfig {
    /// A formatter section from its fields as read, with the defaults for missing ones:
    /// the working directory `.`, and empty option, include and exclude lists.
    pub fn from_fields(
        command: String,
        work_dir: Option<String>,
        options: Option<Vec<String>>,
        includes: Option<Vec<String>>,
        excludes: Option<Vec<String>>,
    ) -> (r: FmtConfig)
        ensures
            r.command@ == command@,
            r.work_dir@ == match work_dir {
                Some(w) => w@,
                None => seq!['.'],
            },
            r.options@ == match options {
                Some(v) => v@,
                None => Seq::<String>::empty(),
            },
            r.includes@ == match includes {
                Some(v) => v@,
                None => Seq::<String>::empty(),
            },
            r.excludes@ == match excludes {
                Some(v) => v@,
                None => Seq::<String>::empty(),
            },
    {
        let work_dir = match work_dir {
            Some(w) => w,
            None => cwd(),
        };
        let options = match options {
            Some(v) => v,
            None => Vec::new(),
        };
        let includes = match includes {
            Some(v) => v,
            None => Vec::new(),
        };
        let excludes = match excludes {
            Some(v) => v,
            None => Vec::new(),
        };
        FmtConfig { command, work_dir, options, includes, excludes }
    }
}

/// The places where the configuration file is looked for, nearest first: in `dir`
/// under both names, then in each directory above it.
pub open spec fn config_candidates(dir: Seq<char>) -> Seq<Seq<char>>
    decreases dir.len(),
{
    let here = seq![joined(dir, FILENAME@), joined(dir, FILENAMEALT@)];
    match parent_of(dir) {
        Some(p) => if p.len() < dir.len() {
            here + config_candidates(p)
        } else {
            here
        },
        None => here,
    }
}

/// Lists the places where the configuration file is looked for, nearest first.
pub fn candidate_paths(dir: &str) -> (r: Vec<String>)
    ensures
        r@.map_values(|s: String| s@) == config_candidates(dir@),
{
    let mut out: Vec<String> = Vec::new();
    let mut cur = String::from_str(dir);
    loop
        invariant
            out@.map_values(|s: String| s@) + config_candidates(cur@) == config_candidates(dir@),
        decreases cur@.len(),
    {
        let ghost before = out@.map_values(|s: String| s@);
        let a = join_path(cur.as_str(), FILENAME);
        let b = join_path(cur.as_str(), FILENAMEALT);
        out.push(a);
        out.push(b);
        let ghost here = seq![joined(cur@, FILENAME@), joined(cur@, FILENAMEALT@)];
        assert(out@.map_values(|s: String| s@) =~= before + here);
        match parent_dir(cur.as_str()) {
            Some(p) => {
                assert(config_candidates(cur@) == here + config_candidates(p@));
                assert(before + config_candidates(cur@) =~= (before + here) + config_candidates(p@));
                cur = p;
            },
            None => {
                assert(config_candidates(cur@) == here);
                return out;
            },
        }
    }
}

/// The first candidate whose answer is yes, among those answered.
pub open spec fn first_present(candidates: Seq<Seq<char>>, present: Seq<bool>) -> Option<Seq<char>>
    decreases present.len(),
{
    if present.len() == 0 || candidates.len() == 0 {
        None
    } else if present[0] {
        Some(candidates[0])
    } else {
        first_present(candidates.drop_first(), present.drop_first())
    }
}

/// Returns the first candidate for which the answer in `present` is yes; `present`
/// holds the answers for the first candidates, in order.
pub fn first_existing(candidates: &Vec<String>, present: &Vec<bool>) -> (r: Option<String>)
    requires
        present@.len() <= candidates@.len(),
    ensures
        r matches Some(p) ==> first_present(candidates@.map_values(|s: String| s@), present@) == Some(p@),
        r is None ==> first_present(candidates@.map_values(|s: String| s@), present@) is None,
{
    let ghost views = candidates@.map_values(|s: String| s@);
    let mut i: usize = 0;
    assert(views.skip(0) =~= views);
    assert(present@.skip(0) =~= present@);
    while i < present.len()
        invariant
            i <= present@.len(),
            present@.len() <= candidates@.len(),
            views == candidates@.map_values(|s: String| s@),
            first_present(views, present@) == first_present(views.skip(i as int), present@.skip(i as int)),
        decreases present@.len() - i,
    {
        assert(views.skip(i as int).drop_first() =~= views.skip(i + 1));
        assert(present@.skip(i as int).drop_first() =~= present@.skip(i + 1));
        if present[i] {
            let found = candidates[i].clone();
            assert(views.skip(i as int)[0] == found@);
            return Some(found);
        }
        i = i + 1;
    }
    assert(present@.skip(i as int).len() == 0);
    None
}

/// Relies on std's Path::exists: true when something is found at the path; the answer
/// depends on the disk.
#[verifier::external_body]
fn path_exists(p: &str) -> (r: bool) {
    std::path::Path::new(p).exists()
}

/// Returns the path of the configuration file: the first of the candidate places,
/// from `dir` and up, where one exists. The places are asked in order, until one
/// exists; the answers go to `first_existing`.
pub fn lookup(dir: &str) -> (r: Option<String>)
    ensures
        r matches Some(p) ==> config_candidates(dir@).contains(p@),
{
    let candidates = candidate_paths(dir);
    let mut present: Vec<bool> = Vec::new();
    let mut i: usize = 0;
    while i < candidates.len()
        invariant
            i <= candidates@.len(),
            present@.len() == i,
        decreases candidates@.len() - i,
    {
        let here = path_exists(candidates[i].as_str());
        present.push(here);
        i = i + 1;
        if here {
            break;
        }
    }
    let r = first_existing(&candidates, &present);
    proof {
        lemma_first_present_member(candidates@.map_values(|s: String| s@), present@);
    }
    r
}

proof fn lemma_first_present_member(candidates: Seq<Seq<char>>, present: Seq<bool>)
    ensures
        first_present(candidates, present) matches Some(p) ==> candidates.contains(p),
    decreases present.len(),
{
    if present.len() > 0 && candidates.len() > 0 && !present[0] {
        lemma_first_present_member(candidates.drop_first(), present.drop_first());
        match first_present(candidates, present) {
            Some(p) => {
                let j = choose|j: int| 0 <= j < candidates.drop_first().len() && candidates.drop_first()[j] == p;
                assert(candidates[j + 1] == p);
            },
            None => {},
        }
    } else if present.len() > 0 && candidates.len() > 0 {
        assert(candidates[0] == candidates[0]);
    }
}

} // verus!
