//! Orchestration of one file's check: filesystem-phase checks, the parse
//! outcome, per-file-ignore filtering, suppression filtering, and the
//! retention decision for the syntax-error diagnostic.

use vstd::prelude::*;
use vstd::string::StringExecFns;
use crate::code_table::{ErrorCodeTable, MessageKind};
use crate::flags;
use crate::locator::Locator;
use crate::message::{Message, SourceFile};
use crate::registry::{
    code_label, code_ord, spec_lint_source, CheckerSource, Diagnostic, DiagnosticKind,
    ErrorCode,
};
use crate::settings::{ignores_for_path, CheckerSettings};
use crate::suppression::{
    check_type_ignore, diag_rep, pass1_ignored, pass1_matches, unused_pass_runs,
    unused_upto, DiagRep,
};
use crate::text_range::TextRange;
use crate::type_ignore::{
    comment_ranges_wf, eof_extended, exempt_state, lines_of, resolve_spec,
    TypeIgnoreMapping,
};

verus! {

/// The structured form of a parse failure: where it happened and what the
/// parser said.
#[derive(Clone, Debug)]
pub struct SyntaxErrorData {
    pub offset: usize,
    pub message: String,
}

/// What parsing and the AST-phase checks produced for one file: either the
/// diagnostics of the AST-phase rule functions, or the parse failure.
pub enum ParseOutcome {
    Success(Vec<Diagnostic>),
    Failure(SyntaxErrorData),
}

/// A result-like type that returns both data and an error, so that callers
/// still obtain the diagnostics produced around a parse failure.
pub struct CheckerResult<T> {
    pub data: T,
    pub error: Option<SyntaxErrorData>,
}

impl<T> CheckerResult<T> {
    pub fn new(data: T, error: Option<SyntaxErrorData>) -> (r: Self)
        ensures
            r.data == data,
            r.error == error,
    {
        CheckerResult { data, error }
    }
}

/// The byte length of the UTF-8 character starting at `offset`, read from
/// its leading byte; zero at the end of the text.
pub open spec fn utf8_len_at(text: Seq<u8>, offset: int) -> int {
    if offset >= text.len() {
        0
    } else {
        let b = text[offset];
        if b < 192 {
            1
        } else if b < 224 {
            2
        } else if b < 240 {
            3
        } else {
            4
        }
    }
}

/// The end of the syntax-error highlight: one character past the error
/// offset, clamped to the end of the text; at the end of the file, one
/// byte past it, so that the highlight is never empty.
pub open spec fn syntax_highlight_end(text: Seq<u8>, offset: int) -> int {
    if offset >= text.len() {
        offset + 1
    } else if offset + utf8_len_at(text, offset) <= text.len() {
        offset + utf8_len_at(text, offset)
    } else {
        text.len() as int
    }
}

/// The synthesized syntax-error highlight is never empty: its end exceeds
/// the error offset on every admitted input.
pub proof fn lemma_syntax_highlight_nonempty(text: Seq<u8>, offset: int)
    requires
        0 <= offset <= text.len(),
    ensures
        syntax_highlight_end(text, offset) > offset,
{
}

/// The diagnostic synthesized for a parse failure.
pub open spec fn syntax_rep(text: Seq<u8>, offset: int, message: Seq<char>) -> DiagRep {
    DiagRep {
        code: ErrorCode::SyntaxError,
        body: "Syntax error: "@ + message,
        range_start: offset,
        range_end: syntax_highlight_end(text, offset),
        parent: None,
    }
}

/// The diagnostics the parse stage contributes: those of the AST-phase
/// checks on success, or the one synthesized syntax-error diagnostic.
pub open spec fn stage1_of(text: Seq<u8>, parse: ParseOutcome) -> Seq<DiagRep> {
    match parse {
        ParseOutcome::Success(ast) => ast@.map_values(|d: Diagnostic| diag_rep(d)),
        ParseOutcome::Failure(f) => seq![syntax_rep(text, f.offset as int, f.message@)],
    }
}

/// The diagnostics whose codes are not in the ignore set, in order.
pub open spec fn keep_not_ignored(s: Seq<DiagRep>, ig: Set<int>) -> Seq<DiagRep>
    decreases s.len(),
{
    if s.len() == 0 {
        Seq::empty()
    } else {
        keep_not_ignored(s.drop_last(), ig) + if ig.contains(code_ord(s.last().code)) {
            Seq::empty()
        } else {
            seq![s.last()]
        }
    }
}

/// What removing index `i` by a swap with the last element leaves behind.
pub open spec fn swap_removed(s: Seq<DiagRep>, i: int) -> Seq<DiagRep> {
    s.update(i, s.last()).drop_last()
}

/// The sequence left after removing the listed indices, largest first,
/// each by a swap with the then-last element.
pub open spec fn remove_indices(s: Seq<DiagRep>, idxs: Seq<int>) -> Seq<DiagRep>
    decreases idxs.len(),
{
    if idxs.len() == 0 {
        s
    } else {
        remove_indices(swap_removed(s, idxs.last()), idxs.drop_last())
    }
}

/// Whether some code with the given lint source is enabled.
pub open spec fn any_enabled_source(table: ErrorCodeTable, src: CheckerSource) -> bool {
    exists|c: ErrorCode|
        table.enabled_set().contains(#[trigger] code_ord(c)) && spec_lint_source(c) == src
}

/// Whether a diagnostic with the syntax-error code is present.
pub open spec fn has_syntax_error(s: Seq<DiagRep>) -> bool {
    exists|j: int| 0 <= j < s.len() && (#[trigger] s[j]).code == ErrorCode::SyntaxError
}

/// The diagnostics `check_path` returns, stage by stage: the parse stage,
/// the per-file-ignore filter, the suppression filter, and the retention
/// decision for the syntax-error diagnostic.
pub open spec fn check_path_reps(
    text: Seq<u8>,
    comment_ranges: Seq<TextRange>,
    m: Seq<TextRange>,
    table: ErrorCodeTable,
    pfi_ignores: Set<int>,
    pfi_count: int,
    noqa_on: bool,
    stage1: Seq<DiagRep>,
    had_error: bool,
) -> Seq<DiagRep> {
    let lines0 = eof_extended(lines_of(text, comment_ranges), text.len() as int);
    let ex = exempt_state(text, comment_ranges);
    let stage2 = if stage1.len() > 0 && pfi_count > 0 {
        keep_not_ignored(stage1, pfi_ignores)
    } else {
        stage1
    };
    let run_supp = (noqa_on && stage2.len() > 0) || any_enabled_source(
        table,
        CheckerSource::Noqa,
    );
    let stage3 = if run_supp {
        let fm = pass1_matches(lines0, m, ex, stage2, stage2.len() as int);
        let ignored = pass1_ignored(lines0, m, ex, stage2, stage2.len() as int);
        let unused = if unused_pass_runs(ex, !had_error, table) {
            unused_upto(lines0, fm, table, lines0.len() as int)
        } else {
            Seq::<DiagRep>::empty()
        };
        if noqa_on {
            remove_indices(stage2 + unused, ignored)
        } else {
            stage2 + unused
        }
    } else {
        stage2
    };
    if had_error && !table.enabled_set().contains(code_ord(ErrorCode::SyntaxError)) {
        keep_not_ignored(stage3, Set::empty().insert(code_ord(ErrorCode::SyntaxError)))
    } else {
        stage3
    }
}

/// Whether the raw parse error is kept for later display: only when the
/// synthesized syntax-error diagnostic survived the filters.
pub open spec fn check_path_error_kept(
    text: Seq<u8>,
    comment_ranges: Seq<TextRange>,
    m: Seq<TextRange>,
    table: ErrorCodeTable,
    pfi_ignores: Set<int>,
    pfi_count: int,
    noqa_on: bool,
    stage1: Seq<DiagRep>,
    had_error: bool,
) -> bool {
    let lines0 = eof_extended(lines_of(text, comment_ranges), text.len() as int);
    let ex = exempt_state(text, comment_ranges);
    let stage2 = if stage1.len() > 0 && pfi_count > 0 {
        keep_not_ignored(stage1, pfi_ignores)
    } else {
        stage1
    };
    let run_supp = (noqa_on && stage2.len() > 0) || any_enabled_source(
        table,
        CheckerSource::Noqa,
    );
    let stage3 = if run_supp {
        let fm = pass1_matches(lines0, m, ex, stage2, stage2.len() as int);
        let ignored = pass1_ignored(lines0, m, ex, stage2, stage2.len() as int);
        let unused = if unused_pass_runs(ex, !had_error, table) {
            unused_upto(lines0, fm, table, lines0.len() as int)
        } else {
            Seq::<DiagRep>::empty()
        };
        if noqa_on {
            remove_indices(stage2 + unused, ignored)
        } else {
            stage2 + unused
        }
    } else {
        stage2
    };
    had_error && has_syntax_error(stage3)
}

/// Filesystem-phase checks for one file: they may read only the path. No
/// registered rule reports from this phase, so the result is empty.
pub fn check_file_path(path: &String, settings: &CheckerSettings) -> (r: Vec<Diagnostic>)
    ensures
        r@.len() == 0,
{
    Vec::new()
}

/// The payload of a type-mismatch finding of the AST phase.
pub fn type_mismatch(var_type: String, value_type: String) -> (r: DiagnosticKind)
    ensures
        r.error_code == ErrorCode::GeneralTypeError,
        r.body@ == "Type mismatch: variable is of type "@ + var_type@
            + ", but value is of type "@ + value_type@,
{
    let mut body = String::from_str("Type mismatch: variable is of type ");
    body.append(var_type.as_str());
    body.append(", but value is of type ");
    body.append(value_type.as_str());
    DiagnosticKind { error_code: ErrorCode::GeneralTypeError, body }
}

/// Whether some enabled code reports from the given analysis phase.
pub fn any_enabled_with_source(table: &ErrorCodeTable, src: CheckerSource) -> (r: bool)
    ensures
        r == any_enabled_source(*table, src),
{
    let codes = crate::registry::all_error_codes();
    let mut i: usize = 0;
    while i < codes.len()
        invariant
            i <= codes@.len(),
            codes@.len() == crate::registry::NUM_ERROR_CODES as int,
            forall|j: int| 0 <= j < codes@.len() ==> code_ord(#[trigger] codes@[j]) == j,
            forall|j: int|
                0 <= j < i ==> !(table.enabled_set().contains(code_ord(#[trigger] codes@[j]))
                    && spec_lint_source(codes@[j]) == src),
        decreases codes@.len() - i,
    {
        let c = codes[i];
        if table.enabled(c) && c.lint_source() == src {
            return true;
        }
        i += 1;
    }
    proof {
        assert forall|c: ErrorCode|
            !(table.enabled_set().contains(#[trigger] code_ord(c)) && spec_lint_source(c)
                == src) by {
            crate::registry::lemma_code_ord_bijective();
            let j = code_ord(c);
            assert(codes@[j] == crate::registry::code_of_ord(code_ord(codes@[j])));
            assert(codes@[j] == c);
        }
    }
    false
}

/// Remove from `diagnostics` every diagnostic whose code is in `ignores`.
fn retain_not_in(diagnostics: &mut Vec<Diagnostic>, ignores: &crate::rule_set::ErrorCodeSet)
    ensures
        final(diagnostics)@.map_values(|d: Diagnostic| diag_rep(d)) == keep_not_ignored(
            old(diagnostics)@.map_values(|d: Diagnostic| diag_rep(d)),
            ignores@,
        ),
{
    let ghost orig = diagnostics@.map_values(|d: Diagnostic| diag_rep(d));
    let mut kept: Vec<Diagnostic> = Vec::new();
    let mut i: usize = 0;
    proof {
        assert(diagnostics@.map_values(|d: Diagnostic| diag_rep(d)).take(0) =~= Seq::<
            DiagRep,
        >::empty());
        assert(keep_not_ignored(orig.take(0), ignores@) =~= Seq::<DiagRep>::empty());
        assert(kept@.map_values(|d: Diagnostic| diag_rep(d)) =~= Seq::<DiagRep>::empty());
    }
    while i < diagnostics.len()
        invariant
            i <= diagnostics@.len(),
            orig == diagnostics@.map_values(|d: Diagnostic| diag_rep(d)),
            kept@.map_values(|d: Diagnostic| diag_rep(d)) == keep_not_ignored(
                orig.take(i as int),
                ignores@,
            ),
        decreases diagnostics@.len() - i,
    {
        let ghost prefix = orig.take(i as int);
        let d = diagnostics[i].clone_diagnostic();
        let ghost old_kept = kept@.map_values(|dd: Diagnostic| diag_rep(dd));
        if !ignores.contains(d.kind.error_code) {
            kept.push(d);
            proof {
                assert(kept@.map_values(|dd: Diagnostic| diag_rep(dd)) =~= old_kept.push(
                    orig[i as int],
                ));
            }
        }
        proof {
            let next = orig.take(i + 1);
            assert(next.drop_last() =~= prefix);
            assert(next.last() == orig[i as int]);
            assert(kept@.map_values(|dd: Diagnostic| diag_rep(dd)) =~= keep_not_ignored(
                next,
                ignores@,
            ));
        }
        i += 1;
    }
    proof {
        assert(orig.take(i as int) =~= orig);
    }
    *diagnostics = kept;
}

/// Generate the diagnostics for one file from its parse outcome and the
/// already-extracted comment ranges, offset mapping and settings: run the
/// phase checks, filter by per-file ignores and suppression comments, and
/// decide whether the syntax-error diagnostic and the raw parse error are
/// kept.
#[verifier::loop_isolation(false)]
#[verifier::rlimit(100)]
pub fn check_path(
    path: &String,
    locator: &Locator,
    comment_ranges: &Vec<TextRange>,
    noqa_mapping: &TypeIgnoreMapping,
    settings: &CheckerSettings,
    noqa: flags::TypeIgnore,
    parse: ParseOutcome,
) -> (r: CheckerResult<Vec<Diagnostic>>)
    requires
        comment_ranges_wf(locator@, comment_ranges@),
        locator@.len() < usize::MAX,
        noqa_mapping.wf(),
        match parse {
            ParseOutcome::Success(_) => true,
            ParseOutcome::Failure(f) => f.offset <= locator@.len(),
        },
    ensures
        ({
            let stage1 = stage1_of(locator@, parse);
            let had_error = parse is Failure;
            let noqa_on = noqa == flags::TypeIgnore::Enabled;
            let ig = ignores_for_path(path@, settings.per_file_ignores@);
            &&& r.data@.map_values(|d: Diagnostic| diag_rep(d)) == check_path_reps(
                locator@,
                comment_ranges@,
                noqa_mapping@,
                settings.table,
                ig,
                settings.per_file_ignores@.len() as int,
                noqa_on,
                stage1,
                had_error,
            )
            &&& match (r.error, parse) {
                (Some(e), ParseOutcome::Failure(f)) => e.offset == f.offset && e.message@
                    == f.message@ && check_path_error_kept(
                    locator@,
                    comment_ranges@,
                    noqa_mapping@,
                    settings.table,
                    ig,
                    settings.per_file_ignores@.len() as int,
                    noqa_on,
                    stage1,
                    had_error,
                ),
                (None, ParseOutcome::Failure(f)) => !check_path_error_kept(
                    locator@,
                    comment_ranges@,
                    noqa_mapping@,
                    settings.table,
                    ig,
                    settings.per_file_ignores@.len() as int,
                    noqa_on,
                    stage1,
                    had_error,
                ),
                (None, ParseOutcome::Success(_)) => true,
                (Some(_), ParseOutcome::Success(_)) => false,
            }
        }),
{
    let ghost text = locator@;
    let mut diagnostics: Vec<Diagnostic> = Vec::new();
    let mut error: Option<SyntaxErrorData> = None;

    // Run the filesystem-based rules: they contribute nothing, but only
    // when some filesystem-sourced code is enabled is the phase entered.
    if any_enabled_with_source(&settings.table, CheckerSource::Filesystem) {
        let mut fs_diags = check_file_path(path, settings);
        diagnostics.append(&mut fs_diags);
    }

    // The parse outcome: the AST-phase diagnostics on success, or one
    // synthesized syntax-error diagnostic on failure.
    let ghost stage1 = stage1_of(text, parse);
    let ghost had_error = parse is Failure;
    match parse {
        ParseOutcome::Success(mut ast) => {
            diagnostics.append(&mut ast);
        },
        ParseOutcome::Failure(f) => {
            let len = utf8_char_len(locator, f.offset);
            let end = if f.offset >= locator.len() {
                f.offset + 1
            } else if len <= locator.len() - f.offset {
                f.offset + len
            } else {
                locator.len()
            };
            let mut body = String::from_str("Syntax error: ");
            body.append(f.message.as_str());
            let diag = Diagnostic::new(
                DiagnosticKind { error_code: ErrorCode::SyntaxError, body },
                TextRange::new(f.offset, end),
            );
            diagnostics.push(diag);
            error = Some(f);
        },
    }
    proof {
        assert(diagnostics@.map_values(|d: Diagnostic| diag_rep(d)) =~= stage1);
    }

    // Ignore diagnostics based on per-file ignores.
    let ghost ig = ignores_for_path(path@, settings.per_file_ignores@);
    if diagnostics.len() > 0 && settings.per_file_ignores.len() > 0 {
        let ignores = crate::settings::ignores_from_path(path, &settings.per_file_ignores);
        if !ignores.is_empty() {
            retain_not_in(&mut diagnostics, &ignores);
        } else {
            proof {
                lemma_keep_not_ignored_empty(stage1, ig);
            }
        }
    }
    let ghost stage2 = if stage1.len() > 0 && settings.per_file_ignores@.len() > 0 {
        keep_not_ignored(stage1, ig)
    } else {
        stage1
    };
    proof {
        assert(diagnostics@.map_values(|d: Diagnostic| diag_rep(d)) == stage2);
    }

    // Enforce suppression directives.
    let ghost lines0 = eof_extended(lines_of(text, comment_ranges@), text.len() as int);
    let ghost ex = exempt_state(text, comment_ranges@);
    let noqa_on = noqa.is_enabled();
    let run_supp = (noqa_on && diagnostics.len() > 0) || any_enabled_with_source(
        &settings.table,
        CheckerSource::Noqa,
    );
    let ghost ignored_spec = pass1_ignored(lines0, noqa_mapping@, ex, stage2, stage2.len() as int);
    let ghost fm_spec = pass1_matches(lines0, noqa_mapping@, ex, stage2, stage2.len() as int);
    let ghost unused_spec = if unused_pass_runs(ex, !had_error, settings.table) {
        unused_upto(lines0, fm_spec, settings.table, lines0.len() as int)
    } else {
        Seq::<DiagRep>::empty()
    };
    if run_supp {
        let analyze_directives = error.is_none();
        proof {
            assert(analyze_directives == !had_error);
        }
        let ghost pre_supp = diagnostics@;
        let ignored = check_type_ignore(
            &mut diagnostics,
            locator,
            comment_ranges,
            noqa_mapping,
            analyze_directives,
            &settings.table,
        );
        proof {
            let dreps_after = diagnostics@.map_values(|d: Diagnostic| diag_rep(d));
            assert(pre_supp.map_values(|d: Diagnostic| diag_rep(d)) == stage2);
            assert forall|j: int|
                0 <= j < dreps_after.len() implies dreps_after[j] == (stage2
                + unused_spec)[j] by {
                if j < stage2.len() {
                    assert(diagnostics@[j] == pre_supp[j]);
                } else {
                    assert(diag_rep(diagnostics@[stage2.len() + (j - stage2.len())])
                        == unused_spec[j - stage2.len()]);
                }
            }
            assert(dreps_after =~= stage2 + unused_spec);
        }
        if noqa_on {
            let ghost whole = diagnostics@.map_values(|d: Diagnostic| diag_rep(d));
            proof {
                crate::suppression::lemma_pass1_entries_below(
                    lines0,
                    noqa_mapping@,
                    ex,
                    stage2,
                    stage2.len() as int,
                );
                crate::suppression::lemma_pass1_ignored_len(
                    lines0,
                    noqa_mapping@,
                    ex,
                    stage2,
                    stage2.len() as int,
                );
            }
            let mut j = ignored.len();
            proof {
                assert(ignored@.map_values(|x: usize| x as int).take(j as int)
                    =~= ignored_spec);
            }
            while j > 0
                invariant
                    j <= ignored@.len(),
                    ignored@.map_values(|x: usize| x as int) == ignored_spec,
                    ignored_spec.len() <= stage2.len(),
                    diagnostics@.len() == whole.len() - (ignored_spec.len() - j),
                    remove_indices(whole, ignored_spec) == remove_indices(
                        diagnostics@.map_values(|d: Diagnostic| diag_rep(d)),
                        ignored_spec.take(j as int),
                    ),
                decreases j,
            {
                let ghost curr = diagnostics@.map_values(|d: Diagnostic| diag_rep(d));
                let ghost idxs = ignored_spec.take(j as int);
                let idx = ignored[j - 1];
                proof {
                    assert(ignored_spec[j - 1] == idx as int);
                    assert(idxs.last() == idx as int);
                    assert(idxs.drop_last() =~= ignored_spec.take(j - 1));
                    // The index is within the current vector: indices are
                    // strictly ascending and below the pre-pass length.
                    lemma_ascending_room(ignored_spec, j - 1, stage2.len() as int);
                    assert(idx < diagnostics@.len());
                }
                let _removed = diagnostics.swap_remove(idx);
                proof {
                    assert(diagnostics@.map_values(|d: Diagnostic| diag_rep(d))
                        =~= swap_removed(curr, idx as int));
                }
                j = j - 1;
            }
            proof {
                assert(ignored_spec.take(0) =~= Seq::<int>::empty());
            }
        }
    }

    // If there was a syntax error, check whether it should be discarded:
    // if the synthesized diagnostic was filtered away, the raw error goes
    // too; if the syntax-error code is disabled, the diagnostic goes.
    if error.is_some() {
        let mut found = false;
        let mut i: usize = 0;
        while i < diagnostics.len()
            invariant
                i <= diagnostics@.len(),
                found == exists|j: int|
                    0 <= j < i && (#[trigger] diagnostics@[j]).kind.error_code
                        == ErrorCode::SyntaxError,
            decreases diagnostics@.len() - i,
        {
            if diagnostics[i].kind.error_code == ErrorCode::SyntaxError {
                found = true;
            }
            i += 1;
        }
        proof {
            let reps = diagnostics@.map_values(|d: Diagnostic| diag_rep(d));
            assert(found == has_syntax_error(reps)) by {
                if found {
                    let j = choose|j: int|
                        0 <= j < diagnostics@.len() && (#[trigger] diagnostics@[j]).kind.error_code
                            == ErrorCode::SyntaxError;
                    assert(reps[j].code == ErrorCode::SyntaxError);
                }
                if has_syntax_error(reps) {
                    let j = choose|j: int|
                        0 <= j < reps.len() && (#[trigger] reps[j]).code
                            == ErrorCode::SyntaxError;
                    assert(diagnostics@[j].kind.error_code == ErrorCode::SyntaxError);
                }
            }
        }
        if !found {
            error = None;
        }
        if !settings.table.enabled(ErrorCode::SyntaxError) {
            let only_syntax = crate::rule_set::ErrorCodeSet::from_error_code(
                ErrorCode::SyntaxError,
            );
            retain_not_in(&mut diagnostics, &only_syntax);
            proof {
                assert(only_syntax@ == Set::<int>::empty().insert(code_ord(
                    ErrorCode::SyntaxError,
                )));
            }
        }
    }
    CheckerResult { data: diagnostics, error }
}

/// Filtering by an empty ignore set keeps everything.
proof fn lemma_keep_not_ignored_empty(s: Seq<DiagRep>, ig: Set<int>)
    requires
        forall|i: int| !ig.contains(i),
    ensures
        keep_not_ignored(s, ig) == s,
    decreases s.len(),
{
    if s.len() > 0 {
        lemma_keep_not_ignored_empty(s.drop_last(), ig);
        assert(keep_not_ignored(s, ig) =~= s);
    } else {
        assert(keep_not_ignored(s, ig) =~= s);
    }
}

/// In a strictly ascending index list bounded by `n`, the entry at `w`
/// leaves room for those after it: it is below `n` minus their count.
proof fn lemma_ascending_room(idxs: Seq<int>, w: int, n: int)
    requires
        0 <= w < idxs.len(),
        forall|v: int| 0 <= v < idxs.len() ==> 0 <= #[trigger] idxs[v] < n,
        forall|v1: int, v2: int| 0 <= v1 < v2 < idxs.len() ==> idxs[v1] < idxs[v2],
    ensures
        idxs[w] < n - (idxs.len() - 1 - w),
    decreases idxs.len() - w,
{
    if w < idxs.len() - 1 {
        lemma_ascending_room(idxs, w + 1, n);
    }
}

/// The byte length of the character starting at `offset`; zero at the end
/// of the text.
fn utf8_char_len(locator: &Locator, offset: usize) -> (r: usize)
    requires
        offset <= locator@.len(),
    ensures
        r == utf8_len_at(locator@, offset as int),
        r <= 4,
{
    if offset >= locator.len() {
        return 0;
    }
    let b = locator.contents()[offset];
    if b < 192 {
        1
    } else if b < 224 {
        2
    } else if b < 240 {
        3
    } else {
        4
    }
}

/// Convert the surviving diagnostics of one file to user-facing messages:
/// each gains the file handle, its severity from the rule table, and the
/// remapped anchor offset used for suppression reporting.
pub fn diagnostics_to_messages(
    settings: &CheckerSettings,
    diagnostics: Vec<Diagnostic>,
    path: &String,
    locator: &Locator,
    noqa_mapping: &TypeIgnoreMapping,
) -> (r: Vec<Message>)
    requires
        noqa_mapping.wf(),
    ensures
        r@.len() == diagnostics@.len(),
        forall|j: int|
            0 <= j < r@.len() ==> {
                let d = diagnostics@[j];
                let msg = #[trigger] r@[j];
                &&& msg.diagnostic == d.kind
                &&& msg.range == d.range
                &&& msg.file.name@ == path@
                &&& msg.file.contents@ == locator@
                &&& msg.ignore_offset == resolve_spec(noqa_mapping@, d.range.start as int)
                &&& msg.kind == if settings.table.warning_set().contains(code_ord(
                    d.kind.error_code,
                )) {
                    MessageKind::Warning
                } else {
                    MessageKind::Error
                }
            },
{
    let file = SourceFile::new(
        path.clone(),
        Locator::new(crate::type_ignore::clone_bytes_of(locator.contents())),
    );
    let mut out: Vec<Message> = Vec::new();
    let mut diags = diagnostics;
    let ghost orig = diags@;
    let mut i: usize = 0;
    while i < diags.len()
        invariant
            i <= diags@.len(),
            diags@ == orig,
            file.name@ == path@,
            file.contents@ == locator@,
            noqa_mapping.wf(),
            out@.len() == i,
            forall|j: int|
                0 <= j < i ==> {
                    let d = orig[j];
                    let msg = #[trigger] out@[j];
                    &&& msg.diagnostic == d.kind
                    &&& msg.range == d.range
                    &&& msg.file.name@ == path@
                    &&& msg.file.contents@ == locator@
                    &&& msg.ignore_offset == resolve_spec(
                        noqa_mapping@,
                        d.range.start as int,
                    )
                    &&& msg.kind == if settings.table.warning_set().contains(code_ord(
                        d.kind.error_code,
                    )) {
                        MessageKind::Warning
                    } else {
                        MessageKind::Error
                    }
                },
        decreases diags@.len() - i,
    {
        let d = diags[i].clone_diagnostic();
        let kind = if settings.table.is_warning(d.kind.error_code) {
            MessageKind::Warning
        } else {
            MessageKind::Error
        };
        proof {
            assert(d == orig[i as int]);
        }
        let noqa_offset = noqa_mapping.resolve(d.range.start);
        let msg = Message::from_diagnostic(d, file.duplicate(), noqa_offset, kind);
        out.push(msg);
        i += 1;
    }
    out
}

/// The messages for a file that could not be read at all: one io-error
/// message carrying the reader's words, if and only if that code is
/// active, at the severity the table gives it.
pub fn messages_from_read_error(
    name: String,
    error_text: String,
    settings: &CheckerSettings,
) -> (r: Vec<Message>)
    ensures
        ({
            match settings.table.spec_entry(ErrorCode::IOError) {
                Some(kind) => {
                    &&& r@.len() == 1
                    &&& r@[0].diagnostic.error_code == ErrorCode::IOError
                    &&& r@[0].diagnostic.body@ == error_text@
                    &&& r@[0].range == (TextRange { start: 0usize, end: 0usize })
                    &&& r@[0].file.name@ == name@
                    &&& r@[0].ignore_offset == 0
                    &&& r@[0].kind == kind
                },
                None => r@.len() == 0,
            }
        }),
{
    let mut messages: Vec<Message> = Vec::new();
    match settings.table.entry(ErrorCode::IOError) {
        Some(kind) => {
            let diagnostic = Diagnostic::new(
                DiagnosticKind { error_code: ErrorCode::IOError, body: error_text },
                TextRange::empty(),
            );
            let file = SourceFile::new(name, Locator::new(Vec::new()));
            messages.push(Message::from_diagnostic(diagnostic, file, 0, kind));
        },
        None => {},
    }
    messages
}

/// The registry's codes in the byte-lexicographic order of their display
/// labels.
pub open spec fn label_ordered_codes() -> Seq<ErrorCode> {
    seq![
        ErrorCode::InvalidPyprojectToml,
        ErrorCode::GeneralTypeError,
        ErrorCode::IOError,
        ErrorCode::Override,
        ErrorCode::SyntaxError,
        ErrorCode::UndefinedName,
        ErrorCode::Unreachable,
        ErrorCode::UnusedImport,
        ErrorCode::UnusedTypeIgnore,
        ErrorCode::UnusedVariable,
    ]
}

/// The registry's codes, ordered by their display labels.
pub fn codes_in_label_order() -> (r: Vec<ErrorCode>)
    ensures
        r@ == label_ordered_codes(),
{
    let r: Vec<ErrorCode> = vec![
        ErrorCode::InvalidPyprojectToml,
        ErrorCode::GeneralTypeError,
        ErrorCode::IOError,
        ErrorCode::Override,
        ErrorCode::SyntaxError,
        ErrorCode::UndefinedName,
        ErrorCode::Unreachable,
        ErrorCode::UnusedImport,
        ErrorCode::UnusedTypeIgnore,
        ErrorCode::UnusedVariable,
    ];
    proof {
        assert(r@ =~= label_ordered_codes());
    }
    r
}

/// The display labels of the listed rule codes, deduplicated, sorted by
/// label, joined by commas.
pub fn collect_rule_codes(rules: &Vec<ErrorCode>) -> (r: String)
    ensures
        r@ == joined_present(
            crate::rule_set::codes_as_set(rules@),
            crate::registry::NUM_ERROR_CODES as int,
        ),
{
    let ghost present = crate::rule_set::codes_as_set(rules@);
    let set = crate::rule_set::ErrorCodeSet::from_error_codes(rules.as_slice());
    let ordered = codes_in_label_order();
    let mut out = String::new();
    let mut any = false;
    let mut i: usize = 0;
    while i < ordered.len()
        invariant
            i <= ordered@.len(),
            ordered@ == label_ordered_codes(),
            set@ == present,
            out@ == joined_present(present, i as int),
            any == (joined_present(present, i as int).len() > 0),
        decreases ordered@.len() - i,
    {
        let c = ordered[i];
        if set.contains(c) {
            if any {
                out.append(", ");
            }
            out.append(c.to_str());
            any = true;
            proof {
                crate::registry::lemma_label_len_pos(c);
            }
        }
        i += 1;
    }
    out
}

/// The labels of the first `k` label-ordered registry codes that lie in
/// `present`, joined by commas.
pub open spec fn joined_present(present: Set<int>, k: int) -> Seq<char>
    decreases k,
{
    if k <= 0 {
        Seq::empty()
    } else {
        let c = label_ordered_codes()[k - 1];
        if !present.contains(code_ord(c)) {
            joined_present(present, k - 1)
        } else {
            let prev = joined_present(present, k - 1);
            if prev.len() == 0 {
                code_label(c)
            } else {
                prev + ", "@ + code_label(c)
            }
        }
    }
}

} // verus!

verus! {

/// The kind of a constant expression, as far as the type-mismatch rule
/// reads it.
#[derive(Clone, Copy, Debug, PartialEq, Eq, Structural)]
pub enum ConstantNodeValue {
    Bool,
    Int,
    Float,
    Str,
    Complex,
    NoneLiteral,
    Tuple,
    Bytes,
    Ellipsis,
}

/// An annotated assignment, as far as the type-mismatch rule reads it: its
/// range, the annotation's name, and the kind of the assigned constant.
#[derive(Clone, Debug)]
pub struct AnnAssignNode {
    pub range: TextRange,
    pub annotation: Vec<u8>,
    pub value: Option<ConstantNodeValue>,
}

/// One statement, as far as the AST-phase checks read it.
#[derive(Clone, Debug)]
pub enum PyStmt {
    AnnAssign(AnnAssignNode),
    Other,
}

/// The name under which a constant kind reports in a type mismatch
/// against an `int` annotation; `None` when no mismatch is reported.
pub open spec fn mismatch_label(v: ConstantNodeValue) -> Option<Seq<char>> {
    match v {
        ConstantNodeValue::Bool => Some("bool"@),
        ConstantNodeValue::Float => Some("float"@),
        ConstantNodeValue::Str => Some("str"@),
        ConstantNodeValue::Complex => Some("complex"@),
        ConstantNodeValue::NoneLiteral => Some("None"@),
        ConstantNodeValue::Tuple => Some("tuple"@),
        _ => None,
    }
}

/// The diagnostics of the AST phase over the first statements: one type
/// mismatch per `int`-annotated assignment of a non-integer constant.
pub open spec fn ast_check_reps(stmts: Seq<PyStmt>, enabled: bool) -> Seq<DiagRep>
    decreases stmts.len(),
{
    if !enabled || stmts.len() == 0 {
        Seq::empty()
    } else {
        ast_check_reps(stmts.drop_last(), enabled) + match stmts.last() {
            PyStmt::AnnAssign(a) => if a.annotation@ == seq![105u8, 110u8, 116u8] {
                match a.value {
                    Some(v) => match mismatch_label(v) {
                        Some(lbl) => seq![
                            DiagRep {
                                code: ErrorCode::GeneralTypeError,
                                body: "Type mismatch: variable is of type "@ + "int"@
                                    + ", but value is of type "@ + lbl,
                                range_start: a.range.start as int,
                                range_end: a.range.end as int,
                                parent: None,
                            },
                        ],
                        None => Seq::empty(),
                    },
                    None => Seq::empty(),
                }
            } else {
                Seq::empty()
            },
            PyStmt::Other => Seq::empty(),
        }
    }
}

/// Run the AST-phase checks over one file's statements. Only the
/// type-mismatch rule reports, and only when its code is enabled.
#[verifier::loop_isolation(false)]
pub fn check_ast(python_ast: &Vec<PyStmt>, settings: &CheckerSettings) -> (r: Vec<
    Diagnostic,
>)
    ensures
        r@.map_values(|d: Diagnostic| diag_rep(d)) == ast_check_reps(
            python_ast@,
            settings.table.enabled_set().contains(code_ord(ErrorCode::GeneralTypeError)),
        ),
{
    let mut diagnostics: Vec<Diagnostic> = Vec::new();
    let ghost enabled = settings.table.enabled_set().contains(code_ord(
        ErrorCode::GeneralTypeError,
    ));
    proof {
        assert(diagnostics@.map_values(|d: Diagnostic| diag_rep(d)) =~= Seq::<
            DiagRep,
        >::empty());
        assert(ast_check_reps(python_ast@.take(0), enabled) =~= Seq::<DiagRep>::empty());
    }
    if !settings.table.enabled(ErrorCode::GeneralTypeError) {
        proof {
            assert(ast_check_reps(python_ast@, enabled) =~= Seq::<DiagRep>::empty());
        }
        return diagnostics;
    }
    let mut i: usize = 0;
    while i < python_ast.len()
        invariant
            i <= python_ast@.len(),
            enabled,
            diagnostics@.map_values(|d: Diagnostic| diag_rep(d)) == ast_check_reps(
                python_ast@.take(i as int),
                enabled,
            ),
        decreases python_ast@.len() - i,
    {
        let ghost prefix = python_ast@.take(i as int);
        let ghost old_reps = diagnostics@.map_values(|d: Diagnostic| diag_rep(d));
        match &python_ast[i] {
            PyStmt::AnnAssign(a) => {
                let int_lit: Vec<u8> = vec![105u8, 110u8, 116u8];
                proof {
                    assert(int_lit@ =~= seq![105u8, 110u8, 116u8]);
                }
                let is_int = crate::registry::bytes_equal(
                    a.annotation.as_slice(),
                    int_lit.as_slice(),
                );
                if is_int {
                    let label: Option<&'static str> = match a.value {
                        Some(ConstantNodeValue::Bool) => Some("bool"),
                        Some(ConstantNodeValue::Float) => Some("float"),
                        Some(ConstantNodeValue::Str) => Some("str"),
                        Some(ConstantNodeValue::Complex) => Some("complex"),
                        Some(ConstantNodeValue::NoneLiteral) => Some("None"),
                        Some(ConstantNodeValue::Tuple) => Some("tuple"),
                        _ => None,
                    };
                    if let Some(lbl) = label {
                        let kind = type_mismatch(
                            String::from_str("int"),
                            String::from_str(lbl),
                        );
                        let diag = Diagnostic::new(kind, a.range);
                        diagnostics.push(diag);
                        proof {
                            assert(diagnostics@.map_values(|d: Diagnostic| diag_rep(d))
                                =~= old_reps.push(diag_rep(diag)));
                        }
                    }
                }
            },
            PyStmt::Other => {},
        }
        proof {
            let next = python_ast@.take(i + 1);
            assert(next.drop_last() =~= prefix);
            assert(next.last() == python_ast@[i as int]);
            assert(diagnostics@.map_values(|d: Diagnostic| diag_rep(d)) =~= ast_check_reps(
                next,
                enabled,
            ));
        }
        i += 1;
    }
    proof {
        assert(python_ast@.take(i as int) =~= python_ast@);
    }
    diagnostics
}

/// The labels of the listed codes, joined by commas, in list order.
pub open spec fn joined_code_labels(cs: Seq<ErrorCode>) -> Seq<char>
    decreases cs.len(),
{
    if cs.len() == 0 {
        Seq::empty()
    } else if cs.len() == 1 {
        code_label(cs[0])
    } else {
        joined_code_labels(cs.drop_last()) + ", "@ + code_label(cs.last())
    }
}

/// Which codes of a scoped directive were reported unnecessary, and why.
#[derive(Clone, Debug, PartialEq, Eq)]
pub struct UnusedCodes {
    /// Codes that name no code of the registry.
    pub unknown: Vec<Vec<u8>>,
    /// Known codes currently disabled in configuration.
    pub disabled: Vec<ErrorCode>,
    /// Known, enabled codes that suppressed nothing.
    pub unmatched: Vec<ErrorCode>,
}

/// The payload of an unused-suppression finding: with no codes for a
/// blanket directive, or naming the unmatched codes of a scoped one.
pub fn unused_type_ignore(codes: Option<&Vec<ErrorCode>>) -> (r: DiagnosticKind)
    ensures
        r.error_code == ErrorCode::UnusedTypeIgnore,
        match codes {
            None => r.body@ == "Unused type ignore directive"@,
            Some(v) => r.body@ == "Unused type ignore directive, with codes: "@
                + joined_code_labels(v@),
        },
{
    match codes {
        None => DiagnosticKind {
            error_code: ErrorCode::UnusedTypeIgnore,
            body: String::from_str("Unused type ignore directive"),
        },
        Some(v) => {
            let mut body = String::from_str("Unused type ignore directive, with codes: ");
            let mut j: usize = 0;
            proof {
                assert(v@.take(0) =~= Seq::<ErrorCode>::empty());
                assert(body@ =~= "Unused type ignore directive, with codes: "@
                    + joined_code_labels(v@.take(0)));
            }
            while j < v.len()
                invariant
                    j <= v@.len(),
                    body@ == "Unused type ignore directive, with codes: "@
                        + joined_code_labels(v@.take(j as int)),
                decreases v@.len() - j,
            {
                if j > 0 {
                    body.append(", ");
                }
                body.append(v[j].to_str());
                proof {
                    let next = v@.take(j + 1);
                    assert(next.drop_last() =~= v@.take(j as int));
                    assert(next.last() == v@[j as int]);
                }
                j += 1;
            }
            proof {
                assert(v@.take(j as int) =~= v@);
            }
            DiagnosticKind { error_code: ErrorCode::UnusedTypeIgnore, body }
        },
    }
}

} // verus!
