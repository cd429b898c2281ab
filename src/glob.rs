//! Compiled glob pattern sets, held behind the globset crate.
use crate::paths::{expand_if_path, expanded_pattern};
use globset::{GlobSet, GlobSetBuilder};
use vstd::prelude::*;

verus! {

#[verifier::external_type_specification]
#[verifier::external_body]
pub struct ExGlobSet(globset::GlobSet);

#[verifier::external_type_specification]
#[verifier::external_body]
pub struct ExGlobSetBuilder(globset::GlobSetBuilder);

#[verifier::external_type_specification]
#[verifier::external_body]
pub struct ExGlobError(globset::Error);

/// Whether the glob `pattern`, compiled with default options, matches `path`.
pub uninterp spec fn glob_matches(pattern: Seq<char>, path: Seq<char>) -> bool;

/// The patterns that a compiled set was built from, in order.
pub uninterp spec fn glob_set_patterns(s: GlobSet) -> Seq<Seq<char>>;

/// The patterns added to a builder so far, in order.
pub uninterp spec fn builder_patterns(b: GlobSetBuilder) -> Seq<Seq<char>>;

/// Whether `pattern` compiles as a glob with default options.
pub uninterp spec fn glob_compiles(pattern: Seq<char>) -> bool;

/// Whether a set can be built from the compiled patterns `pats`.
pub uninterp spec fn set_builds(pats: Seq<Seq<char>>) -> bool;

/// Every pattern of `pats` compiles, and a set can be built from them.
pub open spec fn patterns_compile(pats: Seq<Seq<char>>) -> bool {
    &&& forall|i: int| 0 <= i < pats.len() ==> glob_compiles(#[trigger] pats[i])
    &&& set_builds(pats)
}

/// Some pattern of `pats` matches `path`.
pub open spec fn any_glob_matches(pats: Seq<Seq<char>>, path: Seq<char>) -> bool {
    exists|i: int| 0 <= i < pats.len() && glob_matches(pats[i], path)
}

/// Relies on globset::GlobSetBuilder::new: a builder that holds no pattern yet.
#[verifier::external_body]
fn new_builder() -> (r: GlobSetBuilder)
    ensures
        builder_patterns(r) == Seq::<Seq<char>>::empty(),
{
    GlobSetBuilder::new()
}

/// Relies on globset::Glob::new, which compiles one pattern with default options, its
/// success depending on the pattern alone, and globset::GlobSetBuilder::add, which
/// appends it to the builder; on a pattern that does not compile the builder is left
/// as it was.
#[verifier::external_body]
fn add_pattern(b: &mut GlobSetBuilder, pattern: &str) -> (r: Result<(), globset::Error>)
    ensures
        r is Ok <==> glob_compiles(pattern@),
        r is Ok ==> builder_patterns(*final(b)) == builder_patterns(*old(b)).push(pattern@),
        r is Err ==> builder_patterns(*final(b)) == builder_patterns(*old(b)),
{
    let glob = globset::Glob::new(pattern)?;
    b.add(glob);
    Ok(())
}

/// Relies on globset::GlobSetBuilder::build: whether it succeeds depends on the patterns
/// added alone, and the set built matches with exactly those patterns.
#[verifier::external_body]
fn build_set(b: &GlobSetBuilder) -> (r: Result<GlobSet, globset::Error>)
    ensures
        r is Ok <==> set_builds(builder_patterns(*b)),
        r matches Ok(s) ==> glob_set_patterns(s) == builder_patterns(*b),
{
    b.build()
}

/// Relies on globset::GlobSet::is_match: true if any glob in the set matches the path.
#[verifier::external_body]
pub(crate) fn set_matches(s: &GlobSet, path: &str) -> (r: bool)
    ensures
        r == (exists|i: int|
            0 <= i < glob_set_patterns(*s).len() && glob_matches(glob_set_patterns(*s)[i], path@)),
{
    s.is_match(path)
}

/// The patterns of the configuration as they are compiled: expanded against the tree root.
pub open spec fn expanded_patterns(patterns: Seq<String>, tree_root: Seq<char>) -> Seq<Seq<char>> {
    patterns.map_values(|p: String| expanded_pattern(p@, tree_root))
}

/// Compiles configuration patterns into one set. A pattern that holds a separator is
/// expanded against the tree root; a bare file name matches that name anywhere.
pub fn patterns_to_glob_set(tree_root: &str, patterns: &Vec<String>) -> (r: Result<GlobSet, globset::Error>)
    ensures
        r is Ok <==> patterns_compile(expanded_patterns(patterns@, tree_root@)),
        r matches Ok(s) ==> glob_set_patterns(s) == expanded_patterns(patterns@, tree_root@),
{
    let mut b = new_builder();
    let mut i: usize = 0;
    while i < patterns.len()
        invariant
            i <= patterns@.len(),
            builder_patterns(b) == expanded_patterns(patterns@.take(i as int), tree_root@),
            forall|j: int| 0 <= j < i ==> glob_compiles(#[trigger] expanded_patterns(patterns@, tree_root@)[j]),
        decreases patterns@.len() - i,
    {
        let pat = expand_if_path(patterns[i].clone(), tree_root);
        assert(pat@ == expanded_patterns(patterns@, tree_root@)[i as int]);
        match add_pattern(&mut b, pat.as_str()) {
            Ok(()) => {},
            Err(e) => {
                return Err(e);
            },
        }
        assert(expanded_patterns(patterns@.take(i + 1), tree_root@) =~= expanded_patterns(
            patterns@.take(i as int),
            tree_root@,
        ).push(pat@));
        i = i + 1;
    }
    assert(patterns@.take(patterns@.len() as int) =~= patterns@);
    build_set(&b)
}

} // verus!
