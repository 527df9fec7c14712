//! The resolved settings one check run works under: the rule table, the
//! per-file ignore patterns, and the target interpreter version.

use vstd::prelude::*;
use crate::code_table::ErrorCodeTable;
use crate::registry::{code_ord, ErrorCode};
use crate::rule_set::{codes_as_set, ErrorCodeSet};

verus! {

/// A version of the target interpreter.
#[derive(Clone, Copy, Debug, PartialEq, Eq, Structural)]
pub enum PythonVersion {
    Py310,
    Py311,
    Py312,
}

impl PythonVersion {
    /// Return the latest supported interpreter version.
    pub fn latest() -> (r: Self)
        ensures
            r == PythonVersion::Py312,
    {
        PythonVersion::Py312
    }

    /// The default version assumed when none is configured.
    pub fn default_version() -> (r: Self)
        ensures
            r == PythonVersion::Py310,
    {
        PythonVersion::Py310
    }

    pub open spec fn spec_as_tuple(self) -> (u8, u8) {
        match self {
            PythonVersion::Py310 => (3u8, 10u8),
            PythonVersion::Py311 => (3u8, 11u8),
            PythonVersion::Py312 => (3u8, 12u8),
        }
    }

    pub fn as_tuple(&self) -> (r: (u8, u8))
        ensures
            r == self.spec_as_tuple(),
    {
        match self {
            PythonVersion::Py310 => (3, 10),
            PythonVersion::Py311 => (3, 11),
            PythonVersion::Py312 => (3, 12),
        }
    }

    pub fn major(&self) -> (r: u8)
        ensures
            r == self.spec_as_tuple().0,
    {
        self.as_tuple().0
    }

    pub fn minor(&self) -> (r: u8)
        ensures
            r == self.spec_as_tuple().1,
    {
        self.as_tuple().1
    }
}

/// How reports are rendered.
#[derive(Clone, Copy, Debug, PartialEq, Eq, Structural)]
pub enum SerializationFormat {
    Text,
}

impl SerializationFormat {
    pub fn default_format() -> (r: Self)
        ensures
            r == SerializationFormat::Text,
    {
        SerializationFormat::Text
    }
}

/// A glob pattern to exclude or include files, either built in or given by
/// the user together with its absolute form.
#[derive(Clone, Debug, PartialEq, Eq)]
pub enum FilePattern {
    Builtin(String),
    User(String, String),
}

/// What the result of matching a glob `pattern` against `path` is. Relies
/// on the globset crate; the result is a function of the two strings alone.
pub uninterp spec fn glob_matches(pattern: Seq<char>, path: Seq<char>) -> bool;

/// Whether `pattern` is a well-formed glob that the globset crate accepts.
pub uninterp spec fn glob_ok(pattern: Seq<char>) -> bool;

/// Relies on globset's `Glob::new`, `GlobSetBuilder::build` and
/// `GlobSet::is_match`: whether the glob `pattern` matches `path`. A
/// pattern globset rejects, or whose compiled form exceeds globset's size
/// limit, matches nothing; the builder returns those as errors rather than
/// panicking.
#[verifier::external_body]
fn glob_is_match(pattern: &String, path: &String) -> (r: bool)
    ensures
        r == glob_matches(pattern@, path@),
{
    match globset::Glob::new(pattern.as_str()) {
        Ok(g) => {
            let mut builder = globset::GlobSetBuilder::new();
            builder.add(g);
            match builder.build() {
                Ok(set) => set.is_match(path.as_str()),
                Err(_) => false,
            }
        },
        Err(_) => false,
    }
}

/// Relies on globset's `Glob::new`: whether it accepts `pattern`.
#[verifier::external_body]
fn glob_pattern_valid(pattern: &String) -> (r: bool)
    ensures
        r == glob_ok(pattern@),
{
    globset::Glob::new(pattern.as_str()).is_ok()
}

/// One per-file ignore entry: the absolute and basename forms of its glob,
/// and the codes it disables for matching files.
#[derive(Clone, Debug)]
pub struct PerFileIgnore {
    pub absolute: String,
    pub basename: String,
    pub rules: ErrorCodeSet,
}

/// The error returned when a configured glob pattern is rejected.
#[derive(Clone, Debug, PartialEq, Eq)]
pub struct InvalidGlobError {
    pub pattern: String,
}

/// Validate the configured per-file-ignore patterns: `Err` with the first
/// offending pattern exactly when some pattern is not a well-formed glob.
pub fn resolve_per_file_ignores(per_file_ignores: Vec<PerFileIgnore>) -> (r: Result<
    Vec<PerFileIgnore>,
    InvalidGlobError,
>)
    ensures
        match r {
            Ok(v) => v@ == per_file_ignores@ && forall|i: int|
                0 <= i < per_file_ignores@.len() ==> glob_ok(
                    (#[trigger] per_file_ignores@[i]).absolute@,
                ) && glob_ok(per_file_ignores@[i].basename@),
            Err(e) => exists|i: int|
                0 <= i < per_file_ignores@.len() && (!glob_ok(
                    (#[trigger] per_file_ignores@[i]).absolute@,
                ) || !glob_ok(per_file_ignores@[i].basename@)) && (e.pattern@
                    == per_file_ignores@[i].absolute@ || e.pattern@ == per_file_ignores@[i].basename@),
        },
{
    let mut i: usize = 0;
    while i < per_file_ignores.len()
        invariant
            i <= per_file_ignores@.len(),
            forall|k: int|
                0 <= k < i ==> glob_ok((#[trigger] per_file_ignores@[k]).absolute@)
                    && glob_ok(per_file_ignores@[k].basename@),
        decreases per_file_ignores@.len() - i,
    {
        if !glob_pattern_valid(&per_file_ignores[i].absolute) {
            let p = per_file_ignores[i].absolute.clone();
            return Err(InvalidGlobError { pattern: p });
        }
        if !glob_pattern_valid(&per_file_ignores[i].basename) {
            let p = per_file_ignores[i].basename.clone();
            return Err(InvalidGlobError { pattern: p });
        }
        i += 1;
    }
    Ok(per_file_ignores)
}

/// The union of the code sets of the entries whose absolute or basename
/// glob matches the path.
pub open spec fn ignores_for_path(
    path: Seq<char>,
    entries: Seq<PerFileIgnore>,
) -> Set<int>
    decreases entries.len(),
{
    if entries.len() == 0 {
        Set::empty()
    } else {
        ignores_for_path(path, entries.drop_last()) + (if glob_matches(
            entries.last().absolute@,
            path,
        ) || glob_matches(entries.last().basename@, path) {
            entries.last().rules@
        } else {
            Set::empty()
        })
    }
}

/// The codes disabled for `path` by the per-file ignore entries: the union
/// of the sets of every entry one of whose globs matches the path.
pub fn ignores_from_path(path: &String, per_file_ignores: &Vec<PerFileIgnore>) -> (r:
    ErrorCodeSet)
    ensures
        r@ == ignores_for_path(path@, per_file_ignores@),
{
    let mut set = ErrorCodeSet::empty();
    let mut i: usize = 0;
    proof {
        assert(per_file_ignores@.take(0) =~= Seq::<PerFileIgnore>::empty());
    }
    while i < per_file_ignores.len()
        invariant
            i <= per_file_ignores@.len(),
            set@ == ignores_for_path(path@, per_file_ignores@.take(i as int)),
        decreases per_file_ignores@.len() - i,
    {
        let ghost prefix = per_file_ignores@.take(i as int);
        let entry = &per_file_ignores[i];
        if glob_is_match(&entry.absolute, path) || glob_is_match(&entry.basename, path) {
            set = set.union(&entry.rules);
            proof {
                assert(set@ =~= ignores_for_path(path@, prefix) + per_file_ignores@[
                    i as int
                ].rules@);
            }
        }
        proof {
            let next = per_file_ignores@.take(i + 1);
            assert(next.drop_last() =~= prefix);
            assert(next.last() == per_file_ignores@[i as int]);
            assert(set@ =~= ignores_for_path(path@, next));
        }
        i += 1;
    }
    proof {
        assert(per_file_ignores@.take(i as int) =~= per_file_ignores@);
    }
    set
}

/// The settings one check run works under.
#[derive(Clone, Debug)]
pub struct CheckerSettings {
    pub project_root: String,
    pub table: ErrorCodeTable,
    pub per_file_ignores: Vec<PerFileIgnore>,
    pub target_version: PythonVersion,
    pub namespace_packages: Vec<String>,
    pub src: Vec<String>,
}

impl CheckerSettings {
    /// The default settings for a project root: only the syntax-error code
    /// enabled.
    pub fn new(project_root: String) -> (r: Self)
        ensures
            r.project_root@ == project_root@,
            r.table.enabled_set() == codes_as_set(seq![ErrorCode::SyntaxError]),
            r.table.warning_set() == Set::<int>::empty(),
            r.table.wf(),
            r.per_file_ignores@.len() == 0,
            r.target_version == PythonVersion::Py310,
            r.namespace_packages@.len() == 0,
            r.src@.len() == 0,
    {
        let codes: Vec<ErrorCode> = vec![ErrorCode::SyntaxError];
        let table = ErrorCodeTable::from_error_codes(codes.as_slice());
        proof {
            assert(codes@ =~= seq![ErrorCode::SyntaxError]);
        }
        CheckerSettings {
            project_root,
            table,
            per_file_ignores: Vec::new(),
            target_version: PythonVersion::Py310,
            namespace_packages: Vec::new(),
            src: Vec::new(),
        }
    }

    /// The same settings aimed at another interpreter version.
    #[must_use]
    pub fn with_target_version(self, target_version: PythonVersion) -> (r: Self)
        ensures
            r == (CheckerSettings { target_version, ..self }),
    {
        CheckerSettings { target_version, ..self }
    }

    /// Settings that check exactly one rule.
    pub fn for_rule(rule_code: ErrorCode) -> (r: Self)
        ensures
            r.table.enabled_set() == codes_as_set(seq![rule_code]),
            r.table.warning_set() == Set::<int>::empty(),
            r.table.wf(),
            r.target_version == PythonVersion::Py312,
            r.per_file_ignores@.len() == 0,
    {
        let codes: Vec<ErrorCode> = vec![rule_code];
        let table = ErrorCodeTable::from_error_codes(codes.as_slice());
        proof {
            assert(codes@ =~= seq![rule_code]);
        }
        CheckerSettings {
            project_root: String::new(),
            table,
            per_file_ignores: Vec::new(),
            target_version: PythonVersion::Py312,
            namespace_packages: Vec::new(),
            src: Vec::new(),
        }
    }

    /// Settings that check exactly the listed rules.
    pub fn for_rules(rules: &[ErrorCode]) -> (r: Self)
        ensures
            r.table.enabled_set() == codes_as_set(rules@),
            r.table.warning_set() == Set::<int>::empty(),
            r.table.wf(),
            r.target_version == PythonVersion::Py312,
            r.per_file_ignores@.len() == 0,
    {
        CheckerSettings {
            project_root: String::new(),
            table: ErrorCodeTable::from_error_codes(rules),
            per_file_ignores: Vec::new(),
            target_version: PythonVersion::Py312,
            namespace_packages: Vec::new(),
            src: Vec::new(),
        }
    }
}

} // verus!
