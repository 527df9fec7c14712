//! Configuration values as read from a project's settings, and how
//! several layers of them combine.

use vstd::prelude::*;
use crate::code_selector::ErrorCodeSelector;
use crate::registry::ErrorCode;
use crate::settings::{FilePattern, PerFileIgnore, PythonVersion};

verus! {

/// One layer's rule selections: which codes to report as errors or
/// warnings, which to add, and which to ignore.
#[derive(Clone, Debug)]
pub struct ErrorCodeSelection {
    pub error: Option<Vec<ErrorCodeSelector>>,
    pub extend_error: Vec<ErrorCodeSelector>,
    pub warning: Option<Vec<ErrorCodeSelector>>,
    pub extend_warning: Vec<ErrorCodeSelector>,
    pub ignore: Vec<ErrorCodeSelector>,
}

/// The selectors enabled as errors when no configuration names any.
pub fn default_errors() -> (r: Vec<ErrorCodeSelector>)
    ensures
        r@ == seq![
            ErrorCodeSelector::ErrorCode(ErrorCode::SyntaxError),
            ErrorCodeSelector::ErrorCode(ErrorCode::GeneralTypeError),
            ErrorCodeSelector::ErrorCode(ErrorCode::InvalidPyprojectToml),
        ],
{
    let r: Vec<ErrorCodeSelector> = vec![
        ErrorCodeSelector::ErrorCode(ErrorCode::SyntaxError),
        ErrorCodeSelector::ErrorCode(ErrorCode::GeneralTypeError),
        ErrorCodeSelector::ErrorCode(ErrorCode::InvalidPyprojectToml),
    ];
    proof {
        assert(r@ =~= seq![
            ErrorCodeSelector::ErrorCode(ErrorCode::SyntaxError),
            ErrorCodeSelector::ErrorCode(ErrorCode::GeneralTypeError),
            ErrorCodeSelector::ErrorCode(ErrorCode::InvalidPyprojectToml),
        ]);
    }
    r
}

/// The selectors enabled as warnings when no configuration names any.
pub fn default_warnings() -> (r: Vec<ErrorCodeSelector>)
    ensures
        r@ == seq![
            ErrorCodeSelector::ErrorCode(ErrorCode::UnusedVariable),
            ErrorCodeSelector::ErrorCode(ErrorCode::UnusedImport),
        ],
{
    let r: Vec<ErrorCodeSelector> = vec![
        ErrorCodeSelector::ErrorCode(ErrorCode::UnusedVariable),
        ErrorCodeSelector::ErrorCode(ErrorCode::UnusedImport),
    ];
    proof {
        assert(r@ =~= seq![
            ErrorCodeSelector::ErrorCode(ErrorCode::UnusedVariable),
            ErrorCodeSelector::ErrorCode(ErrorCode::UnusedImport),
        ]);
    }
    r
}

/// A project's configuration, as loaded from one settings source.
#[derive(Clone, Debug)]
pub struct Configuration {
    pub rule_selections: Vec<ErrorCodeSelection>,
    pub per_file_ignores: Option<Vec<PerFileIgnore>>,
    pub cache_dir: Option<String>,
    pub exclude: Option<Vec<FilePattern>>,
    pub force_exclude: Option<bool>,
    pub included: Option<Vec<FilePattern>>,
    pub respect_gitignore: Option<bool>,
    pub target_version: Option<PythonVersion>,
    pub namespace_packages: Option<Vec<String>>,
    pub src: Option<Vec<String>>,
}

impl Configuration {
    /// Layer `self` over `config`: the other configuration's rule
    /// selections come first, and each plain option keeps this
    /// configuration's value when it has one.
    #[must_use]
    pub fn combine(self, config: Self) -> (r: Self)
        ensures
            r.rule_selections@ == config.rule_selections@ + self.rule_selections@,
            r.per_file_ignores == if self.per_file_ignores is Some {
                self.per_file_ignores
            } else {
                config.per_file_ignores
            },
            r.cache_dir == if self.cache_dir is Some {
                self.cache_dir
            } else {
                config.cache_dir
            },
            r.exclude == if self.exclude is Some {
                self.exclude
            } else {
                config.exclude
            },
            r.force_exclude == if self.force_exclude is Some {
                self.force_exclude
            } else {
                config.force_exclude
            },
            r.included == if self.included is Some {
                self.included
            } else {
                config.included
            },
            r.respect_gitignore == if self.respect_gitignore is Some {
                self.respect_gitignore
            } else {
                config.respect_gitignore
            },
            r.target_version == if self.target_version is Some {
                self.target_version
            } else {
                config.target_version
            },
            r.namespace_packages == if self.namespace_packages is Some {
                self.namespace_packages
            } else {
                config.namespace_packages
            },
            r.src == if self.src is Some {
                self.src
            } else {
                config.src
            },
    {
        let mut rule_selections = config.rule_selections;
        let mut mine = self.rule_selections;
        rule_selections.append(&mut mine);
        Configuration {
            rule_selections,
            per_file_ignores: match self.per_file_ignores {
                Some(v) => Some(v),
                None => config.per_file_ignores,
            },
            cache_dir: match self.cache_dir {
                Some(v) => Some(v),
                None => config.cache_dir,
            },
            exclude: match self.exclude {
                Some(v) => Some(v),
                None => config.exclude,
            },
            force_exclude: match self.force_exclude {
                Some(v) => Some(v),
                None => config.force_exclude,
            },
            included: match self.included {
                Some(v) => Some(v),
                None => config.included,
            },
            respect_gitignore: match self.respect_gitignore {
                Some(v) => Some(v),
                None => config.respect_gitignore,
            },
            target_version: match self.target_version {
                Some(v) => Some(v),
                None => config.target_version,
            },
            namespace_packages: match self.namespace_packages {
                Some(v) => Some(v),
                None => config.namespace_packages,
            },
            src: match self.src {
                Some(v) => Some(v),
                None => config.src,
            },
        }
    }
}

} // verus!

verus! {

// ---------------------------------------------------------------------------
// Resolving rule selections into the rule table. The marks a selection
// leaves are modelled as two disjoint ordinal sets: codes marked for
// enabling, and codes marked for disabling; a later mark overrides an
// earlier one, and selectors apply in order of rising specificity.
// ---------------------------------------------------------------------------

use crate::code_selector::{selector_rules, selector_specificity, Specificity};
use crate::code_table::ErrorCodeTable;
use crate::registry::code_ord;
use crate::rule_set::{codes_as_set, ErrorCodeSet};

/// Mark one code for enabling or disabling, overriding earlier marks.
pub open spec fn mark(fl: (Set<int>, Set<int>), ord: int, value: bool) -> (Set<int>, Set<int>) {
    if value {
        (fl.0.insert(ord), fl.1.remove(ord))
    } else {
        (fl.0.remove(ord), fl.1.insert(ord))
    }
}

/// Mark every listed code, in order.
pub open spec fn mark_rules(
    fl: (Set<int>, Set<int>),
    rules: Seq<ErrorCode>,
    value: bool,
) -> (Set<int>, Set<int>)
    decreases rules.len(),
{
    if rules.len() == 0 {
        fl
    } else {
        mark(mark_rules(fl, rules.drop_last(), value), code_ord(rules.last()), value)
    }
}

/// Mark the rules of every selector of the given specificity, in order.
pub open spec fn mark_selectors(
    fl: (Set<int>, Set<int>),
    sels: Seq<ErrorCodeSelector>,
    value: bool,
    level: Specificity,
) -> (Set<int>, Set<int>)
    decreases sels.len(),
{
    if sels.len() == 0 {
        fl
    } else {
        let prev = mark_selectors(fl, sels.drop_last(), value, level);
        if selector_specificity(sels.last()) == level {
            mark_rules(prev, selector_rules(sels.last()), value)
        } else {
            prev
        }
    }
}

/// Marking distributes over concatenated selector lists.
proof fn lemma_mark_selectors_concat(
    fl: (Set<int>, Set<int>),
    a: Seq<ErrorCodeSelector>,
    b: Seq<ErrorCodeSelector>,
    value: bool,
    level: Specificity,
)
    ensures
        mark_selectors(fl, a + b, value, level) == mark_selectors(
            mark_selectors(fl, a, value, level),
            b,
            value,
            level,
        ),
    decreases b.len(),
{
    if b.len() == 0 {
        assert(a + b =~= a);
    } else {
        lemma_mark_selectors_concat(fl, a, b.drop_last(), value, level);
        assert((a + b).drop_last() =~= a + b.drop_last());
        assert((a + b).last() == b.last());
    }
}

/// The selectors an optional list holds.
pub open spec fn opt_selectors(o: Option<Vec<ErrorCodeSelector>>) -> Seq<ErrorCodeSelector> {
    match o {
        Some(v) => v@,
        None => Seq::empty(),
    }
}

/// The marks one selection leaves: within each specificity level, from the
/// least specific up, first its enabling selectors, then its ignores.
pub open spec fn selection_marks(
    enables: Seq<ErrorCodeSelector>,
    disables: Seq<ErrorCodeSelector>,
) -> (Set<int>, Set<int>) {
    let a = mark_selectors(
        (Set::<int>::empty(), Set::<int>::empty()),
        enables,
        true,
        Specificity::All,
    );
    let b = mark_selectors(a, disables, false, Specificity::All);
    let c = mark_selectors(b, enables, true, Specificity::Rule);
    mark_selectors(c, disables, false, Specificity::Rule)
}

/// Apply pending marks on top of an existing set.
pub open spec fn apply_marks(set: Set<int>, fl: (Set<int>, Set<int>)) -> Set<int> {
    set.difference(fl.1).union(fl.0)
}

/// The ignores carried over to the next selection: a selection that names
/// an empty selection list and no extensions, but does name ignores, hands
/// those ignores on.
pub open spec fn carry_of(s: ErrorCodeSelection) -> Seq<ErrorCodeSelector> {
    let carries_errors = s.error is Some && opt_selectors(s.error).len() == 0
        && s.extend_error@.len() == 0 && s.ignore@.len() > 0;
    let carries_warnings = s.warning is Some && opt_selectors(s.warning).len() == 0
        && s.extend_warning@.len() == 0 && s.ignore@.len() > 0;
    if carries_errors || carries_warnings {
        s.ignore@
    } else {
        Seq::empty()
    }
}

/// The error set, warning set, and carried ignores after resolving the
/// first `k` selections, starting from the default errors and warnings.
pub open spec fn table_state(sels: Seq<ErrorCodeSelection>, k: int) -> (
    Set<int>,
    Set<int>,
    Seq<ErrorCodeSelector>,
)
    decreases k,
{
    if k <= 0 {
        (
            codes_as_set(
                seq![
                    ErrorCode::SyntaxError,
                    ErrorCode::GeneralTypeError,
                    ErrorCode::InvalidPyprojectToml,
                ],
            ),
            codes_as_set(seq![ErrorCode::UnusedVariable, ErrorCode::UnusedImport]),
            Seq::empty(),
        )
    } else {
        let prev = table_state(sels, k - 1);
        let s = sels[k - 1];
        let efl = selection_marks(
            opt_selectors(s.error) + s.extend_error@,
            s.ignore@ + prev.2,
        );
        let wfl = selection_marks(
            opt_selectors(s.warning) + s.extend_warning@,
            s.ignore@ + prev.2,
        );
        (
            if s.error is Some {
                efl.0
            } else {
                apply_marks(prev.0, efl)
            },
            if s.warning is Some {
                wfl.0
            } else {
                apply_marks(prev.1, wfl)
            },
            carry_of(s),
        )
    }
}

/// Mark the rules of every matching selector of `sels` into the two sets.
#[verifier::loop_isolation(false)]
fn mark_selectors_exec(
    true_set: &mut ErrorCodeSet,
    false_set: &mut ErrorCodeSet,
    sels: &Vec<ErrorCodeSelector>,
    value: bool,
    level: Specificity,
)
    requires
        old(true_set).wf(),
        old(false_set).wf(),
    ensures
        (final(true_set)@, final(false_set)@) == mark_selectors(
            (old(true_set)@, old(false_set)@),
            sels@,
            value,
            level,
        ),
        final(true_set).wf(),
        final(false_set).wf(),
{
    let ghost fl0 = (true_set@, false_set@);
    let mut i: usize = 0;
    proof {
        assert(sels@.take(0) =~= Seq::<ErrorCodeSelector>::empty());
    }
    while i < sels.len()
        invariant
            i <= sels@.len(),
            (true_set@, false_set@) == mark_selectors(fl0, sels@.take(i as int), value, level),
            true_set.wf(),
            false_set.wf(),
        decreases sels@.len() - i,
    {
        let ghost prefix = sels@.take(i as int);
        let selector = sels[i];
        if selector.specificity() == level {
            let rules = selector.all_rules();
            let ghost before = (true_set@, false_set@);
            let mut j: usize = 0;
            proof {
                assert(rules@.take(0) =~= Seq::<ErrorCode>::empty());
            }
            while j < rules.len()
                invariant
                    j <= rules@.len(),
                    rules@ == selector_rules(sels@[i as int]),
                    (true_set@, false_set@) == mark_rules(
                        before,
                        rules@.take(j as int),
                        value,
                    ),
                    true_set.wf(),
                    false_set.wf(),
                decreases rules@.len() - j,
            {
                let rule = rules[j];
                if value {
                    true_set.insert(rule);
                    false_set.remove(rule);
                } else {
                    true_set.remove(rule);
                    false_set.insert(rule);
                }
                proof {
                    crate::registry::lemma_code_ord_bijective();
                    assert(rules@.take(j + 1).drop_last() =~= rules@.take(j as int));
                    assert(rules@.take(j + 1).last() == rules@[j as int]);
                }
                j += 1;
            }
            proof {
                assert(rules@.take(j as int) =~= rules@);
            }
        }
        proof {
            assert(sels@.take(i + 1).drop_last() =~= prefix);
            assert(sels@.take(i + 1).last() == sels@[i as int]);
        }
        i += 1;
    }
    proof {
        assert(sels@.take(i as int) =~= sels@);
    }
}

/// An owned copy of a selector list.
fn clone_selectors(v: &Vec<ErrorCodeSelector>) -> (r: Vec<ErrorCodeSelector>)
    ensures
        r@ == v@,
{
    let mut out: Vec<ErrorCodeSelector> = Vec::new();
    let mut i: usize = 0;
    while i < v.len()
        invariant
            i <= v@.len(),
            out@ == v@.take(i as int),
        decreases v@.len() - i,
    {
        out.push(v[i]);
        proof {
            assert(out@ =~= v@.take(i + 1));
        }
        i += 1;
    }
    proof {
        assert(v@.take(i as int) =~= v@);
    }
    out
}

/// Mark one level: the enabling selectors of this level first, then its
/// ignores, the carried ones after the selection's own.
#[verifier::loop_isolation(false)]
fn apply_level(
    true_set: &mut ErrorCodeSet,
    false_set: &mut ErrorCodeSet,
    enable_list: &Option<Vec<ErrorCodeSelector>>,
    extend_list: &Vec<ErrorCodeSelector>,
    ignore_list: &Vec<ErrorCodeSelector>,
    carried: &Vec<ErrorCodeSelector>,
    level: Specificity,
)
    requires
        old(true_set).wf(),
        old(false_set).wf(),
    ensures
        (final(true_set)@, final(false_set)@) == mark_selectors(
            mark_selectors(
                (old(true_set)@, old(false_set)@),
                opt_selectors(*enable_list) + extend_list@,
                true,
                level,
            ),
            ignore_list@ + carried@,
            false,
            level,
        ),
        final(true_set).wf(),
        final(false_set).wf(),
{
    let ghost fl0 = (true_set@, false_set@);
    let ghost enables = opt_selectors(*enable_list) + extend_list@;
    match enable_list {
        Some(v) => {
            mark_selectors_exec(true_set, false_set, v, true, level);
        },
        None => {},
    }
    let ghost after_named = (true_set@, false_set@);
    proof {
        lemma_mark_selectors_concat(
            fl0,
            opt_selectors(*enable_list),
            extend_list@,
            true,
            level,
        );
        if enable_list is None {
            assert(after_named == mark_selectors(
                fl0,
                opt_selectors(*enable_list),
                true,
                level,
            ));
        }
    }
    mark_selectors_exec(true_set, false_set, extend_list, true, level);
    let ghost after_enables = (true_set@, false_set@);
    proof {
        assert(after_enables == mark_selectors(fl0, enables, true, level));
        lemma_mark_selectors_concat(after_enables, ignore_list@, carried@, false, level);
    }
    mark_selectors_exec(true_set, false_set, ignore_list, false, level);
    mark_selectors_exec(true_set, false_set, carried, false, level);
}

/// The marks one selection leaves for one kind of rule, over the current
/// carried ignores.
fn selection_marks_exec(
    enable_list: &Option<Vec<ErrorCodeSelector>>,
    extend_list: &Vec<ErrorCodeSelector>,
    ignore_list: &Vec<ErrorCodeSelector>,
    carried: &Vec<ErrorCodeSelector>,
) -> (r: (ErrorCodeSet, ErrorCodeSet))
    ensures
        (r.0@, r.1@) == selection_marks(
            opt_selectors(*enable_list) + extend_list@,
            ignore_list@ + carried@,
        ),
        r.0.wf(),
        r.1.wf(),
{
    let mut true_set = ErrorCodeSet::empty();
    let mut false_set = ErrorCodeSet::empty();
    apply_level(
        &mut true_set,
        &mut false_set,
        enable_list,
        extend_list,
        ignore_list,
        carried,
        Specificity::All,
    );
    apply_level(
        &mut true_set,
        &mut false_set,
        enable_list,
        extend_list,
        ignore_list,
        carried,
        Specificity::Rule,
    );
    (true_set, false_set)
}

impl Configuration {
    /// Resolve the layered rule selections into the rule table: starting
    /// from the default errors and warnings, each selection either replaces
    /// the selected set or amends it with its marks, and a selection that
    /// names only ignores hands them to the next layer.
    #[verifier::loop_isolation(false)]
    pub fn as_rule_table(&self) -> (r: ErrorCodeTable)
        ensures
            ({
                let st = table_state(
                    self.rule_selections@,
                    self.rule_selections@.len() as int,
                );
                &&& r.enabled_set() == st.0.union(st.1)
                &&& r.warning_set() == st.1
                &&& r.wf()
            }),
    {
        let default_error_codes: Vec<ErrorCode> = vec![
            ErrorCode::SyntaxError,
            ErrorCode::GeneralTypeError,
            ErrorCode::InvalidPyprojectToml,
        ];
        let default_warning_codes: Vec<ErrorCode> = vec![
            ErrorCode::UnusedVariable,
            ErrorCode::UnusedImport,
        ];
        let mut error_set = ErrorCodeSet::from_error_codes(default_error_codes.as_slice());
        let mut warning_set = ErrorCodeSet::from_error_codes(
            default_warning_codes.as_slice(),
        );
        let mut carry: Vec<ErrorCodeSelector> = Vec::new();
        proof {
            assert(default_error_codes@ =~= seq![
                ErrorCode::SyntaxError,
                ErrorCode::GeneralTypeError,
                ErrorCode::InvalidPyprojectToml,
            ]);
            assert(default_warning_codes@ =~= seq![
                ErrorCode::UnusedVariable,
                ErrorCode::UnusedImport,
            ]);
        }
        let ghost sels = self.rule_selections@;
        let mut k: usize = 0;
        while k < self.rule_selections.len()
            invariant
                k <= sels.len(),
                sels == self.rule_selections@,
                (error_set@, warning_set@, carry@) == table_state(sels, k as int),
                error_set.wf(),
                warning_set.wf(),
            decreases sels.len() - k,
        {
            let ghost prev = table_state(sels, k as int);
            let s = &self.rule_selections[k];
            let error_marks = selection_marks_exec(&s.error, &s.extend_error, &s.ignore, &carry);
            let warning_marks = selection_marks_exec(
                &s.warning,
                &s.extend_warning,
                &s.ignore,
                &carry,
            );
            if s.error.is_some() {
                error_set = error_marks.0;
            } else {
                error_set = error_set.subtract(&error_marks.1).union(&error_marks.0);
            }
            if s.warning.is_some() {
                warning_set = warning_marks.0;
            } else {
                warning_set = warning_set.subtract(&warning_marks.1).union(
                    &warning_marks.0,
                );
            }
            let carries_errors = (match &s.error {
                Some(v) => v.len() == 0,
                None => false,
            }) && s.extend_error.len() == 0 && s.ignore.len() > 0;
            let carries_warnings = (match &s.warning {
                Some(v) => v.len() == 0,
                None => false,
            }) && s.extend_warning.len() == 0 && s.ignore.len() > 0;
            if carries_errors || carries_warnings {
                carry = clone_selectors(&s.ignore);
            } else {
                carry = Vec::new();
            }
            proof {
                assert(carry@ =~= carry_of(sels[k as int]));
                assert((error_set@, warning_set@, carry@) == table_state(sels, k + 1));
            }
            k += 1;
        }
        // Errors first, then warnings, which also enable their codes.
        let mut table = ErrorCodeTable::empty();
        let error_codes = error_set.to_vec();
        let mut i: usize = 0;
        proof {
            assert(error_codes@.take(0) =~= Seq::<ErrorCode>::empty());
            assert(codes_as_set(error_codes@.take(0)) =~= Set::<int>::empty());
        }
        while i < error_codes.len()
            invariant
                i <= error_codes@.len(),
                table.wf(),
                table.enabled_set() == codes_as_set(error_codes@.take(i as int)),
                table.warning_set() == Set::<int>::empty(),
            decreases error_codes@.len() - i,
        {
            let ghost prefix = error_codes@.take(i as int);
            table.enable_error(error_codes[i]);
            proof {
                let next = error_codes@.take(i + 1);
                assert(next.drop_last() =~= prefix);
                assert(next.last() == error_codes@[i as int]);
                lemma_codes_as_set_push(prefix, error_codes@[i as int]);
                assert(next =~= prefix.push(error_codes@[i as int]));
            }
            i += 1;
        }
        proof {
            assert(error_codes@.take(i as int) =~= error_codes@);
            crate::laws::lemma_to_vec_round_trip(error_set@, error_codes@);
        }
        let warning_codes = warning_set.to_vec();
        let mut j: usize = 0;
        proof {
            assert(warning_codes@.take(0) =~= Seq::<ErrorCode>::empty());
            assert(codes_as_set(warning_codes@.take(0)) =~= Set::<int>::empty());
        }
        while j < warning_codes.len()
            invariant
                j <= warning_codes@.len(),
                table.wf(),
                table.enabled_set() == error_set@.union(
                    codes_as_set(warning_codes@.take(j as int)),
                ),
                table.warning_set() == codes_as_set(warning_codes@.take(j as int)),
            decreases warning_codes@.len() - j,
        {
            let ghost prefix = warning_codes@.take(j as int);
            table.enable_warning(warning_codes[j]);
            proof {
                let next = warning_codes@.take(j + 1);
                assert(next.drop_last() =~= prefix);
                assert(next.last() == warning_codes@[j as int]);
                lemma_codes_as_set_push(prefix, warning_codes@[j as int]);
                assert(next =~= prefix.push(warning_codes@[j as int]));
                assert(table.enabled_set() =~= error_set@.union(codes_as_set(next)));
            }
            j += 1;
        }
        proof {
            assert(warning_codes@.take(j as int) =~= warning_codes@);
            crate::laws::lemma_to_vec_round_trip(warning_set@, warning_codes@);
            assert(table.enabled_set() =~= error_set@.union(warning_set@));
        }
        table
    }
}

/// Appending one code inserts its ordinal into the named set.
proof fn lemma_codes_as_set_push(codes: Seq<ErrorCode>, c: ErrorCode)
    ensures
        codes_as_set(codes.push(c)) == codes_as_set(codes).insert(code_ord(c)),
{
    let pushed = codes.push(c);
    assert forall|i: int|
        codes_as_set(pushed).contains(i) == codes_as_set(codes).insert(code_ord(c)).contains(
        i,
    ) by {
        if codes_as_set(pushed).contains(i) {
            let w = choose|w: int| 0 <= w < pushed.len() && code_ord(#[trigger] pushed[w]) == i;
            if w < codes.len() {
                assert(pushed[w] == codes[w]);
                assert(codes_as_set(codes).contains(i));
            } else {
                assert(pushed[w] == c);
            }
        }
        if codes_as_set(codes).contains(i) {
            let w = choose|w: int| 0 <= w < codes.len() && code_ord(#[trigger] codes[w]) == i;
            assert(pushed[w] == codes[w]);
            assert(codes_as_set(pushed).contains(i));
        }
        if i == code_ord(c) {
            assert(pushed[codes.len() as int] == c);
            assert(codes_as_set(pushed).contains(i));
        }
    }
    assert(codes_as_set(pushed) =~= codes_as_set(codes).insert(code_ord(c)));
}

} // verus!
