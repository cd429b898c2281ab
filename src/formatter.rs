//! Formatter specs: resolution from configuration and the match predicate.
use crate::config::FmtConfig;
use crate::glob::{any_glob_matches, expanded_patterns, patterns_compile, glob_set_patterns, patterns_to_glob_set, set_matches};
use crate::meta::FormatterName;
use crate::paths::{clean, cleaned, expand_path, expanded, is_abs, is_absolute, is_within, within};
use globset::GlobSet;
use vstd::prelude::*;

verus! {

/// Why a formatter could not be built from its configuration.
#[derive(Debug, Clone, Copy, PartialEq, Eq, Structural)]
pub enum FormatterError {
    /// The configuration lists no include pattern
    MissingIncludes,
    /// The command could not be found
    BinaryNotFound,
    /// A pattern does not compile
    InvalidPattern,
}

/// An instance of a formatter respecting the spec.
pub struct Formatter {
    /// Name of the formatter for display purposes
    pub name: FormatterName,
    /// Absolute path of the command to run
    pub command: String,
    /// Arguments for formatter
    pub options: Vec<String>,
    /// Absolute working directory of the formatter
    pub work_dir: String,
    /// Files or folders that are included to be formatted
    pub includes: GlobSet,
    /// Files or folders that are excluded from formatting
    pub excludes: GlobSet,
    /// The include patterns as configured
    pub includes_str: Vec<String>,
    /// The exclude patterns as configured
    pub excludes_str: Vec<String>,
}

/// Relies on which::which_in: looks the binary up in the `PATH`-style list, with
/// relative entries resolved against `cwd`. What it finds depends on the disk.
#[verifier::external_body]
fn find_binary(command: &str, search_path: &Option<String>, cwd: &str) -> (r: Option<String>) {
    which::which_in(command, search_path.as_ref(), cwd).ok().map(|p| p.to_string_lossy().to_string())
}

/// Both pattern lists of `cfg` compile once expanded against the tree root.
pub open spec fn config_compiles(cfg: FmtConfig, tree_root: Seq<char>) -> bool {
    patterns_compile(expanded_patterns(cfg.includes@, tree_root)) && patterns_compile(
        expanded_patterns(cfg.excludes@, tree_root),
    )
}

impl Formatter {
    /// The formatter accepts `path`: it lies within the working directory, no exclude
    /// pattern matches it, and some include pattern does.
    pub open spec fn accepts(&self, path: Seq<char>) -> bool {
        &&& within(path, self.work_dir@)
        &&& !any_glob_matches(glob_set_patterns(self.excludes), path)
        &&& any_glob_matches(glob_set_patterns(self.includes), path)
    }

    /// The formatter is what `cfg` describes under `name`, with the command `command`.
    pub open spec fn built_from(&self, tree_root: Seq<char>, name: Seq<char>, cfg: FmtConfig, command: Seq<char>) -> bool {
        &&& self.name@ == name
        &&& self.command@ == command
        &&& self.options@ == cfg.options@
        &&& self.work_dir@ == expanded(cfg.work_dir@, tree_root)
        &&& glob_set_patterns(self.includes) == expanded_patterns(cfg.includes@, tree_root)
        &&& glob_set_patterns(self.excludes) == expanded_patterns(cfg.excludes@, tree_root)
        &&& self.includes_str@ == cfg.includes@
        &&& self.excludes_str@ == cfg.excludes@
    }

    /// Returns true if the path matches the formatter rules. Excludes win over includes.
    pub fn is_match(&self, path: &str) -> (r: bool)
        requires
            is_abs(path@),
        ensures
            r == self.accepts(path@),
    {
        // Ignore any paths that are outside of the formatter work_dir
        if !is_within(path, self.work_dir.as_str()) {
            return false;
        }
        // Ignore if any of the excludes match
        if set_matches(&self.excludes, path) {
            return false;
        }
        // Return true if any of the includes match
        set_matches(&self.includes, path)
    }

    /// The arguments of one invocation on a batch of paths: the formatter's options,
    /// then the paths.
    pub fn command_args(&self, paths: &Vec<String>) -> (r: Vec<String>)
        ensures
            r@ == self.options@ + paths@,
    {
        let mut args = self.options.clone();
        let mut rest = paths.clone();
        assert(args@ =~= self.options@);
        assert(rest@ =~= paths@);
        args.append(&mut rest);
        args
    }

    /// Builds the formatter from a config fragment, with the command already resolved:
    /// `None` when it was not found. It succeeds exactly when there are includes, the
    /// command was found, and both pattern lists compile.
    pub fn from_resolved(tree_root: &str, name: &str, cfg: &FmtConfig, command: Option<String>) -> (r: Result<Formatter, FormatterError>)
        ensures
            r == Err::<Formatter, FormatterError>(FormatterError::MissingIncludes) <==> cfg.includes@.len() == 0,
            r == Err::<Formatter, FormatterError>(FormatterError::BinaryNotFound) <==> (cfg.includes@.len() > 0 && command is None),
            r == Err::<Formatter, FormatterError>(FormatterError::InvalidPattern) <==> (cfg.includes@.len() > 0 && command is Some
                && !config_compiles(*cfg, tree_root@)),
            r is Ok <==> (cfg.includes@.len() > 0 && command is Some && config_compiles(*cfg, tree_root@)),
            r matches Ok(f) ==> command matches Some(c) && f.built_from(tree_root@, name@, *cfg, c@),
    {
        if cfg.includes.len() == 0 {
            return Err(FormatterError::MissingIncludes);
        }
        let command = match command {
            Some(c) => c,
            None => {
                return Err(FormatterError::BinaryNotFound);
            },
        };
        let work_dir = expand_path(cfg.work_dir.as_str(), tree_root);
        let includes = match patterns_to_glob_set(tree_root, &cfg.includes) {
            Ok(s) => s,
            Err(_) => {
                return Err(FormatterError::InvalidPattern);
            },
        };
        let excludes = match patterns_to_glob_set(tree_root, &cfg.excludes) {
            Ok(s) => s,
            Err(_) => {
                return Err(FormatterError::InvalidPattern);
            },
        };
        let options = cfg.options.clone();
        let includes_str = cfg.includes.clone();
        let excludes_str = cfg.excludes.clone();
        assert(options@ =~= cfg.options@);
        assert(includes_str@ =~= cfg.includes@);
        assert(excludes_str@ =~= cfg.excludes@);
        Ok(Formatter { name: FormatterName::new(name), command, options, work_dir, includes, excludes, includes_str, excludes_str })
    }

    /// The command as the lookup found it, cleaned, if that is absolute.
    pub fn absolute_command(found: Option<String>) -> (r: Option<String>)
        ensures
            r is Some <==> (found matches Some(p) && is_abs(cleaned(p@))),
            r matches Some(c) ==> found matches Some(p) && c@ == cleaned(p@),
    {
        match found {
            Some(p) => {
                let c = clean(p.as_str());
                if is_absolute(c.as_str()) {
                    Some(c)
                } else {
                    None
                }
            },
            None => None,
        }
    }

    /// Looks the command up from the formatter's working directory in the search path
    /// (the `PATH` list), as an absolute clean path; `None` when it is not found there.
    pub fn resolve_command(tree_root: &str, cfg: &FmtConfig, search_path: &Option<String>) -> (r: Option<String>)
        ensures
            r matches Some(c) ==> is_abs(c@),
    {
        let work_dir = expand_path(cfg.work_dir.as_str(), tree_root);
        Formatter::absolute_command(find_binary(cfg.command.as_str(), search_path, work_dir.as_str()))
    }

    /// Loads the formatter matcher from a config fragment, resolving its command in the
    /// search path.
    pub fn from_config(tree_root: &str, name: &str, cfg: &FmtConfig, search_path: &Option<String>) -> (r: Result<Formatter, FormatterError>)
        ensures
            r == Err::<Formatter, FormatterError>(FormatterError::MissingIncludes) <==> cfg.includes@.len() == 0,
            r matches Ok(f) ==> is_abs(f.command@) && f.built_from(tree_root@, name@, *cfg, f.command@),
    {
        let command = Formatter::resolve_command(tree_root, cfg, search_path);
        Formatter::from_resolved(tree_root, name, cfg, command)
    }
}

} // verus!
