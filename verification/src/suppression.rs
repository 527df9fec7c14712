//! The per-file suppression pass: deciding which diagnostics the
//! suppression directives and the file exemption remove, recording which
//! directives were used, and reporting the ones that were not.

use vstd::prelude::*;
use crate::code_table::ErrorCodeTable;
use crate::locator::Locator;
use crate::registry::{
    code_bytes, code_label, code_ord, Diagnostic, DiagnosticKind, ErrorCode,
};
use crate::text_range::TextRange;
use crate::type_ignore::{
    codes_view, comment_ranges_wf, eof_extended, exempt_state,
    includes, includes_spec, known_code, line_index_of, lines_of, lines_wf, Directive,
    DirectiveRep, ExemptState, FileExemption, LineRep, TypeIgnoreMapping, TypeIgnores,
    resolve_spec,
};

verus! {

/// The mathematical form of one diagnostic.
pub struct DiagRep {
    pub code: ErrorCode,
    pub body: Seq<char>,
    pub range_start: int,
    pub range_end: int,
    pub parent: Option<int>,
}

/// The mathematical form of a diagnostic value.
pub open spec fn diag_rep(d: Diagnostic) -> DiagRep {
    DiagRep {
        code: d.kind.error_code,
        body: d.kind.body@,
        range_start: d.range.start as int,
        range_end: d.range.end as int,
        parent: match d.parent {
            Some(p) => Some(p as int),
            None => None,
        },
    }
}

/// Whether the exemption state covers `code`.
pub open spec fn exempt_covers(ex: ExemptState, code: ErrorCode) -> bool {
    match ex {
        ExemptState::All => true,
        ExemptState::Codes(codes) => includes_spec(code, codes),
    }
}

/// The anchor offsets at which a suppression comment can govern `d`: its
/// parent's offset, then its own start, each remapped, without duplicates.
pub open spec fn anchor_candidates(d: DiagRep, m: Seq<TextRange>) -> Seq<int> {
    match d.parent {
        Some(p) => {
            let a = resolve_spec(m, p);
            let b = resolve_spec(m, d.range_start);
            if a == b {
                seq![a]
            } else {
                seq![a, b]
            }
        },
        None => seq![resolve_spec(m, d.range_start)],
    }
}

/// Whether one directive suppresses diagnostics with `code`.
pub open spec fn directive_suppresses(dir: DirectiveRep, code: ErrorCode) -> bool {
    match dir {
        DirectiveRep::All { .. } => true,
        DirectiveRep::Codes { codes, .. } => includes_spec(code, codes),
    }
}

/// The index of the first directive line, in anchor order, that suppresses
/// `code`; -1 when no anchor's line does.
pub open spec fn matching_line(lines: Seq<LineRep>, anchors: Seq<int>, code: ErrorCode) -> int
    decreases anchors.len(),
{
    if anchors.len() == 0 {
        -1
    } else {
        let li = line_index_of(lines, anchors[0]);
        if li >= 0 && directive_suppresses(lines[li].directive, code) {
            li
        } else {
            matching_line(lines, anchors.drop_first(), code)
        }
    }
}

/// Whether the suppression pass removes `d`.
pub open spec fn spec_suppressed(
    lines: Seq<LineRep>,
    m: Seq<TextRange>,
    ex: ExemptState,
    d: DiagRep,
) -> bool {
    exempt_covers(ex, d.code) || matching_line(lines, anchor_candidates(d, m), d.code)
        >= 0
}

/// The per-line match lists after the first `k` diagnostics have been
/// examined: each suppressed diagnostic's code is recorded on the directive
/// line that suppressed it.
pub open spec fn pass1_matches(
    lines: Seq<LineRep>,
    m: Seq<TextRange>,
    ex: ExemptState,
    diags: Seq<DiagRep>,
    k: int,
) -> Seq<Seq<ErrorCode>>
    decreases k,
{
    if k <= 0 {
        Seq::new(lines.len(), |i: int| lines[i].matches)
    } else {
        let prev = pass1_matches(lines, m, ex, diags, k - 1);
        let d = diags[k - 1];
        if exempt_covers(ex, d.code) {
            prev
        } else {
            let li = matching_line(lines, anchor_candidates(d, m), d.code);
            if li >= 0 {
                prev.update(li, prev[li].push(d.code))
            } else {
                prev
            }
        }
    }
}

/// A matching line, when found, is one of the directive lines.
pub proof fn lemma_matching_line_bounds(
    lines: Seq<LineRep>,
    anchors: Seq<int>,
    code: ErrorCode,
)
    ensures
        matching_line(lines, anchors, code) == -1 || 0 <= matching_line(
            lines,
            anchors,
            code,
        ) < lines.len(),
    decreases anchors.len(),
{
    if anchors.len() > 0 {
        lemma_matching_line_bounds(lines, anchors.drop_first(), code);
    }
}

/// The match lists always cover exactly the directive lines.
pub proof fn lemma_pass1_matches_len(
    lines: Seq<LineRep>,
    m: Seq<TextRange>,
    ex: ExemptState,
    diags: Seq<DiagRep>,
    k: int,
)
    ensures
        pass1_matches(lines, m, ex, diags, k).len() == lines.len(),
    decreases k,
{
    if k > 0 {
        lemma_pass1_matches_len(lines, m, ex, diags, k - 1);
        let d = diags[k - 1];
        lemma_matching_line_bounds(lines, anchor_candidates(d, m), d.code);
    }
}

/// The indices, in ascending order, of the diagnostics among the first `k`
/// that the pass suppresses.
pub open spec fn pass1_ignored(
    lines: Seq<LineRep>,
    m: Seq<TextRange>,
    ex: ExemptState,
    diags: Seq<DiagRep>,
    k: int,
) -> Seq<int>
    decreases k,
{
    if k <= 0 {
        Seq::empty()
    } else {
        let prev = pass1_ignored(lines, m, ex, diags, k - 1);
        if spec_suppressed(lines, m, ex, diags[k - 1]) {
            prev.push(k - 1)
        } else {
            prev
        }
    }
}

/// An index is reported as ignored exactly when its diagnostic is
/// suppressed.
pub proof fn lemma_pass1_ignored_iff(
    lines: Seq<LineRep>,
    m: Seq<TextRange>,
    ex: ExemptState,
    diags: Seq<DiagRep>,
    k: int,
    i: int,
)
    requires
        0 <= i < k <= diags.len(),
    ensures
        pass1_ignored(lines, m, ex, diags, k).contains(i) == spec_suppressed(
            lines,
            m,
            ex,
            diags[i],
        ),
    decreases k,
{
    let cur = pass1_ignored(lines, m, ex, diags, k);
    let prev = pass1_ignored(lines, m, ex, diags, k - 1);
    if i < k - 1 {
        lemma_pass1_ignored_iff(lines, m, ex, diags, k - 1, i);
        if spec_suppressed(lines, m, ex, diags[k - 1]) {
            assert(cur == prev.push(k - 1));
            assert(cur.contains(i) == prev.contains(i)) by {
                if prev.contains(i) {
                    let w = choose|w: int| 0 <= w < prev.len() && prev[w] == i;
                    assert(cur[w] == i);
                }
                if cur.contains(i) {
                    let w = choose|w: int| 0 <= w < cur.len() && cur[w] == i;
                    assert(w < prev.len() ==> prev[w] == i);
                }
            }
        }
    } else {
        lemma_pass1_entries_below(lines, m, ex, diags, k - 1);
        if spec_suppressed(lines, m, ex, diags[i]) {
            assert(cur == prev.push(i));
            assert(cur.last() == i);
        } else {
            assert(cur == prev);
            if cur.contains(i) {
                let w = choose|w: int| 0 <= w < cur.len() && cur[w] == i;
            }
        }
    }
}

/// Every reported index lies below the number of diagnostics examined, and
/// the report is strictly ascending.
pub proof fn lemma_pass1_entries_below(
    lines: Seq<LineRep>,
    m: Seq<TextRange>,
    ex: ExemptState,
    diags: Seq<DiagRep>,
    k: int,
)
    ensures
        forall|w: int|
            0 <= w < pass1_ignored(lines, m, ex, diags, k).len() ==> 0 <= #[trigger]
                pass1_ignored(lines, m, ex, diags, k)[w] < k,
        forall|w1: int, w2: int|
            0 <= w1 < w2 < pass1_ignored(lines, m, ex, diags, k).len() ==> pass1_ignored(
                lines,
                m,
                ex,
                diags,
                k,
            )[w1] < pass1_ignored(lines, m, ex, diags, k)[w2],
    decreases k,
{
    if k > 0 {
        lemma_pass1_entries_below(lines, m, ex, diags, k - 1);
        let prev = pass1_ignored(lines, m, ex, diags, k - 1);
        let cur = pass1_ignored(lines, m, ex, diags, k);
        if spec_suppressed(lines, m, ex, diags[k - 1]) {
            assert(cur == prev.push(k - 1));
            assert forall|w: int| 0 <= w < cur.len() implies 0 <= #[trigger] cur[w]
                < k by {
                if w < prev.len() {
                    assert(cur[w] == prev[w]);
                } else {
                    assert(cur[w] == k - 1);
                }
            }
            assert forall|w1: int, w2: int|
                0 <= w1 < w2 < cur.len() implies cur[w1] < cur[w2] by {
                if w2 < prev.len() {
                    assert(cur[w1] == prev[w1] && cur[w2] == prev[w2]);
                } else {
                    assert(cur[w1] == prev[w1] && cur[w2] == k - 1);
                }
            }
        } else {
            assert(cur == prev);
        }
    }
}

/// No more indices are reported than diagnostics examined.
pub proof fn lemma_pass1_ignored_len(
    lines: Seq<LineRep>,
    m: Seq<TextRange>,
    ex: ExemptState,
    diags: Seq<DiagRep>,
    k: int,
)
    ensures
        pass1_ignored(lines, m, ex, diags, k).len() <= (if k >= 0 {
            k
        } else {
            0
        }),
    decreases k,
{
    if k > 0 {
        lemma_pass1_ignored_len(lines, m, ex, diags, k - 1);
    }
}

/// The code that a known display form names.
pub open spec fn the_code(s: Seq<u8>) -> ErrorCode {
    choose|c: ErrorCode| code_bytes(c) == s
}

/// Whether one of the listed byte strings was recorded as a match.
pub open spec fn is_matched(s: Seq<u8>, matches: Seq<ErrorCode>) -> bool {
    exists|j: int| 0 <= j < matches.len() && code_bytes(#[trigger] matches[j]) == s
}

/// The listed codes that are known and enabled but matched nothing, in
/// order.
pub open spec fn unmatched_of(
    codes: Seq<Seq<u8>>,
    matches: Seq<ErrorCode>,
    table: ErrorCodeTable,
) -> Seq<Seq<u8>>
    decreases codes.len(),
{
    if codes.len() == 0 {
        Seq::empty()
    } else {
        unmatched_of(codes.drop_last(), matches, table) + if !is_matched(
            codes.last(),
            matches,
        ) && known_code(codes.last()) && table.enabled_set().contains(
            code_ord(the_code(codes.last())),
        ) {
            seq![codes.last()]
        } else {
            Seq::empty()
        }
    }
}

/// Whether some listed code names no code of the registry and matched
/// nothing.
pub open spec fn has_unknown(codes: Seq<Seq<u8>>, matches: Seq<ErrorCode>) -> bool {
    exists|j: int|
        0 <= j < codes.len() && !is_matched(#[trigger] codes[j], matches) && !known_code(
            codes[j],
        )
}

/// Whether the directive lists the unused-suppression code itself, which
/// shields the whole directive from unused reporting.
pub open spec fn is_self_referential(codes: Seq<Seq<u8>>) -> bool {
    exists|j: int|
        0 <= j < codes.len() && #[trigger] codes[j] == code_bytes(
            ErrorCode::UnusedTypeIgnore,
        )
}

/// The display labels of the listed codes, joined by commas.
pub open spec fn joined_labels(us: Seq<Seq<u8>>) -> Seq<char>
    decreases us.len(),
{
    if us.len() == 0 {
        Seq::empty()
    } else if us.len() == 1 {
        code_label(the_code(us[0]))
    } else {
        joined_labels(us.drop_last()) + ", "@ + code_label(the_code(us.last()))
    }
}

/// The unused-directive reports of one directive line: a blanket directive
/// that matched nothing reports itself; a scoped directive that is not
/// self-referential reports its unmatched codes and, separately, any
/// unknown codes. Disabled codes are silent.
pub open spec fn line_unused_reps(
    l: LineRep,
    matches: Seq<ErrorCode>,
    table: ErrorCodeTable,
) -> Seq<DiagRep> {
    match l.directive {
        DirectiveRep::All { start, end } => if matches.len() == 0 {
            seq![
                DiagRep {
                    code: ErrorCode::UnusedTypeIgnore,
                    body: "Unused type ignore directive"@,
                    range_start: start,
                    range_end: end,
                    parent: None,
                },
            ]
        } else {
            Seq::empty()
        },
        DirectiveRep::Codes { start, end, codes } => if is_self_referential(codes) {
            Seq::empty()
        } else {
            let um = unmatched_of(codes, matches, table);
            (if um.len() > 0 {
                seq![
                    DiagRep {
                        code: ErrorCode::UnusedTypeIgnore,
                        body: "Unused type ignore directive, with codes: "@ + joined_labels(
                            um,
                        ),
                        range_start: start,
                        range_end: end,
                        parent: None,
                    },
                ]
            } else {
                Seq::empty()
            }) + (if has_unknown(codes, matches) {
                seq![
                    DiagRep {
                        code: ErrorCode::UnusedTypeIgnore,
                        body: "Type ignore directive with unknown codes"@,
                        range_start: start,
                        range_end: end,
                        parent: None,
                    },
                ]
            } else {
                Seq::empty()
            })
        },
    }
}

/// The unused-directive reports of the first `k` directive lines, in line
/// order.
pub open spec fn unused_upto(
    lines: Seq<LineRep>,
    fm: Seq<Seq<ErrorCode>>,
    table: ErrorCodeTable,
    k: int,
) -> Seq<DiagRep>
    decreases k,
{
    if k <= 0 {
        Seq::empty()
    } else {
        unused_upto(lines, fm, table, k - 1) + line_unused_reps(
            lines[k - 1],
            fm[k - 1],
            table,
        )
    }
}

/// The directive lines with their match lists replaced.
pub open spec fn with_matches(lines: Seq<LineRep>, fm: Seq<Seq<ErrorCode>>) -> Seq<
    LineRep,
> {
    Seq::new(
        lines.len(),
        |i: int|
            LineRep {
                range_start: lines[i].range_start,
                range_end: lines[i].range_end,
                directive: lines[i].directive,
                matches: fm[i],
            },
    )
}

/// Replacing match lists moves no line, so lookup is unchanged.
proof fn lemma_line_index_with_matches(
    lines: Seq<LineRep>,
    fm: Seq<Seq<ErrorCode>>,
    offset: int,
)
    requires
        lines_wf(lines),
    ensures
        lines_wf(with_matches(lines, fm)),
        line_index_of(with_matches(lines, fm), offset) == line_index_of(lines, offset),
{
    let wl = with_matches(lines, fm);
    assert forall|k: int|
        0 <= k < lines.len() implies crate::type_ignore::line_governs(wl[k], offset)
        == crate::type_ignore::line_governs(lines[k], offset) by {}
    if line_index_of(lines, offset) >= 0 {
        let k = line_index_of(lines, offset);
        assert(crate::type_ignore::line_governs(wl[k], offset));
        let k2 = line_index_of(wl, offset);
        if k2 != k {
            crate::type_ignore::lemma_line_index_unique(wl, offset, k, k2);
        }
    } else {
        if line_index_of(wl, offset) >= 0 {
            let k2 = line_index_of(wl, offset);
            assert(crate::type_ignore::line_governs(lines[k2], offset));
        }
    }
}

/// Whether the unused-directive pass runs: the unused-suppression code must
/// be enabled, directive analysis permitted, and the file not exempted from
/// that exact code.
pub open spec fn unused_pass_runs(
    ex: ExemptState,
    analyze_directives: bool,
    table: ErrorCodeTable,
) -> bool {
    &&& table.enabled_set().contains(code_ord(ErrorCode::UnusedTypeIgnore))
    &&& analyze_directives
    &&& !exempt_covers(ex, ErrorCode::UnusedTypeIgnore)
}

} // verus!

verus! {

/// Whether one of the recorded matches has `s` as its display form.
fn code_list_matched(s: &Vec<u8>, matches: &Vec<ErrorCode>) -> (r: bool)
    ensures
        r == is_matched(s@, matches@),
{
    let mut j: usize = 0;
    while j < matches.len()
        invariant
            j <= matches@.len(),
            forall|w: int| 0 <= w < j ==> code_bytes(#[trigger] matches@[w]) != s@,
        decreases matches@.len() - j,
    {
        let mb = matches[j].to_code_bytes();
        if crate::registry::bytes_equal(mb.as_slice(), s.as_slice()) {
            return true;
        }
        j += 1;
    }
    false
}

/// Try one anchor offset: when a directive line governs it and that
/// directive suppresses `code`, record the match.
fn try_anchor(directives: &mut TypeIgnores, anchor: usize, code: ErrorCode) -> (r: bool)
    requires
        old(directives).wf(),
    ensures
        final(directives).wf(),
        ({
            let li = line_index_of(old(directives)@, anchor as int);
            if li >= 0 && directive_suppresses(old(directives)@[li].directive, code) {
                r && final(directives)@ == old(directives)@.update(
                    li,
                    LineRep {
                        range_start: old(directives)@[li].range_start,
                        range_end: old(directives)@[li].range_end,
                        directive: old(directives)@[li].directive,
                        matches: old(directives)@[li].matches.push(code),
                    },
                )
            } else {
                !r && final(directives)@ == old(directives)@
            }
        }),
{
    match directives.find_line_index(anchor) {
        Some(ix) => {
            if directives.line_suppresses(ix, code) {
                directives.record_match(ix, code);
                true
            } else {
                false
            }
        },
        None => false,
    }
}

/// Run the suppression pass over one file's diagnostics: decide which are
/// removed by the file exemption or by a directive on one of their anchor
/// lines, record each directive's matches, and append a report for every
/// directive that suppressed nothing. Returns the ascending indices of the
/// suppressed diagnostics; the caller removes them.
#[verifier::loop_isolation(false)]
#[verifier::rlimit(100)]
pub fn check_type_ignore(
    diagnostics: &mut Vec<Diagnostic>,
    locator: &Locator,
    comment_ranges: &Vec<TextRange>,
    noqa_line_for: &TypeIgnoreMapping,
    analyze_directives: bool,
    table: &ErrorCodeTable,
) -> (r: Vec<usize>)
    requires
        comment_ranges_wf(locator@, comment_ranges@),
        locator@.len() < usize::MAX,
        noqa_line_for.wf(),
    ensures
        ({
            let lines0 = eof_extended(
                lines_of(locator@, comment_ranges@),
                locator@.len() as int,
            );
            let ex = exempt_state(locator@, comment_ranges@);
            let dreps = old(diagnostics)@.map_values(|d: Diagnostic| diag_rep(d));
            let n = old(diagnostics)@.len() as int;
            let fm = pass1_matches(lines0, noqa_line_for@, ex, dreps, n);
            let unused = if unused_pass_runs(ex, analyze_directives, *table) {
                unused_upto(lines0, fm, *table, lines0.len() as int)
            } else {
                Seq::<DiagRep>::empty()
            };
            &&& r@.map_values(|x: usize| x as int) == pass1_ignored(
                lines0,
                noqa_line_for@,
                ex,
                dreps,
                n,
            )
            &&& final(diagnostics)@.len() == n + unused.len()
            &&& (forall|j: int| 0 <= j < n ==> final(diagnostics)@[j] == old(diagnostics)@[j])
            &&& (forall|j: int|
                0 <= j < unused.len() ==> diag_rep(#[trigger] final(diagnostics)@[n + j])
                    == unused[j])
        }),
{
    let ghost text = locator@;
    let ghost m = noqa_line_for@;
    // Identify any codes that are globally exempted within this file.
    let exemption = FileExemption::try_extract(comment_ranges, locator);
    // Extract all suppression directives.
    let mut noqa_directives = TypeIgnores::from_commented_ranges(comment_ranges, locator);
    let ghost lines0 = noqa_directives@;
    let ghost ex = exempt_state(text, comment_ranges@);
    let n = diagnostics.len();
    let ghost diags0 = diagnostics@.map_values(|d: Diagnostic| diag_rep(d));
    // Indices of diagnostics that a directive or the exemption removed.
    let mut ignored: Vec<usize> = Vec::new();
    proof {
        assert(noqa_directives@ =~= with_matches(
            lines0,
            pass1_matches(lines0, m, ex, diags0, 0),
        ));
        assert(ignored@.map_values(|x: usize| x as int) =~= pass1_ignored(
            lines0,
            m,
            ex,
            diags0,
            0,
        ));
    }
    let mut k: usize = 0;
    while k < n
        invariant
            k <= n,
            n == diags0.len(),
            diagnostics@ == old(diagnostics)@,
            diags0 == diagnostics@.map_values(|d: Diagnostic| diag_rep(d)),
            noqa_directives@ == with_matches(
                lines0,
                pass1_matches(lines0, m, ex, diags0, k as int),
            ),
            noqa_directives.wf(),
            ignored@.map_values(|x: usize| x as int) == pass1_ignored(
                lines0,
                m,
                ex,
                diags0,
                k as int,
            ),
        decreases n - k,
    {
        let ghost fmk = pass1_matches(lines0, m, ex, diags0, k as int);
        proof {
            lemma_pass1_matches_len(lines0, m, ex, diags0, k as int);
        }
        let ghost old_ignored = ignored@;
        let code = diagnostics[k].kind.error_code;
        let parent = diagnostics[k].parent;
        let start = diagnostics[k].range.start;
        let ghost d = diags0[k as int];
        proof {
            assert(d == diag_rep(diagnostics@[k as int]));
        }
        let exempted = match &exemption {
            Some(FileExemption::All) => true,
            Some(FileExemption::Codes(v)) => includes(code, v),
            None => false,
        };
        proof {
            assert(exempted == exempt_covers(ex, code));
        }
        if exempted {
            ignored.push(k);
            proof {
                assert(spec_suppressed(lines0, m, ex, d));
                assert(ignored@.map_values(|x: usize| x as int) =~= old_ignored.map_values(
                    |x: usize| x as int,
                ).push(k as int));
                assert(pass1_matches(lines0, m, ex, diags0, k + 1) == fmk);
            }
        } else {
            let ghost anchors = anchor_candidates(d, m);
            let (first, second): (usize, Option<usize>) = match parent {
                Some(p) => {
                    let a = noqa_line_for.resolve(p);
                    let b = noqa_line_for.resolve(start);
                    if a == b {
                        (a, None)
                    } else {
                        (a, Some(b))
                    }
                },
                None => (noqa_line_for.resolve(start), None),
            };
            proof {
                match second {
                    Some(b) => {
                        assert(anchors =~= seq![first as int, b as int]);
                    },
                    None => {
                        assert(anchors =~= seq![first as int]);
                    },
                }
            }
            let ghost pre = noqa_directives@;
            let mut suppressed = try_anchor(&mut noqa_directives, first, code);
            proof {
                lemma_line_index_with_matches(lines0, fmk, first as int);
                assert(line_index_of(pre, first as int) == line_index_of(
                    lines0,
                    first as int,
                ));
                let li = line_index_of(lines0, first as int);
                if li >= 0 {
                    assert(pre[li].directive == lines0[li].directive);
                }
            }
            if !suppressed {
                if let Some(b) = second {
                    let ghost pre2 = noqa_directives@;
                    suppressed = try_anchor(&mut noqa_directives, b, code);
                    proof {
                        assert(pre2 == pre);
                        lemma_line_index_with_matches(lines0, fmk, b as int);
                        let li = line_index_of(lines0, b as int);
                        if li >= 0 {
                            assert(pre[li].directive == lines0[li].directive);
                        }
                        assert(anchors.drop_first() =~= seq![b as int]);
                    }
                } else {
                    proof {
                        assert(anchors.drop_first() =~= Seq::<int>::empty());
                        assert(matching_line(lines0, anchors.drop_first(), code) == -1);
                    }
                }
            }
            proof {
                match second {
                    Some(b) => {
                        assert(anchors.drop_first() =~= seq![b as int]);
                        assert(seq![b as int].drop_first() =~= Seq::<int>::empty());
                        assert(matching_line(lines0, Seq::<int>::empty(), code) == -1);
                        assert(matching_line(lines0, anchors.drop_first(), code)
                            == matching_line(lines0, seq![b as int], code));
                    },
                    None => {
                        assert(anchors.drop_first() =~= Seq::<int>::empty());
                        assert(matching_line(lines0, anchors.drop_first(), code) == -1);
                    },
                }
                let ml = matching_line(lines0, anchors, code);
                if suppressed {
                    assert(ml >= 0);
                    let target = with_matches(lines0, fmk.update(ml, fmk[ml].push(code)));
                    assert(pre[ml].matches == fmk[ml]);
                    assert(noqa_directives@ == pre.update(
                        ml,
                        LineRep {
                            range_start: pre[ml].range_start,
                            range_end: pre[ml].range_end,
                            directive: pre[ml].directive,
                            matches: pre[ml].matches.push(code),
                        },
                    ));
                    assert forall|ii: int|
                        0 <= ii < noqa_directives@.len() implies noqa_directives@[ii]
                        == target[ii] by {
                        if ii != ml {
                            assert(noqa_directives@[ii] == pre[ii]);
                            assert(fmk.update(ml, fmk[ml].push(code))[ii] == fmk[ii]);
                        }
                    }
                    assert(noqa_directives@ =~= target);
                } else {
                    assert(ml == -1);
                    assert(noqa_directives@ == with_matches(lines0, fmk));
                }
                assert(pass1_matches(lines0, m, ex, diags0, k + 1) == if ml >= 0 {
                    fmk.update(ml, fmk[ml].push(code))
                } else {
                    fmk
                });
            }
            if suppressed {
                ignored.push(k);
                proof {
                    assert(spec_suppressed(lines0, m, ex, d));
                    assert(ignored@.map_values(|x: usize| x as int)
                        =~= old_ignored.map_values(|x: usize| x as int).push(k as int));
                }
            } else {
                proof {
                    assert(!spec_suppressed(lines0, m, ex, d));
                }
            }
        }
        k += 1;
    }

    // Enforce that every directive was actually used, unless the unused-
    // suppression code is itself disabled, suppressed file-wide, or the
    // file's directives could not be fully analyzed.
    let ghost fmn = pass1_matches(lines0, m, ex, diags0, n as int);
    let run_unused = table.enabled(ErrorCode::UnusedTypeIgnore) && analyze_directives && !(
    match &exemption {
        Some(FileExemption::All) => true,
        Some(FileExemption::Codes(v)) => includes(ErrorCode::UnusedTypeIgnore, v),
        None => false,
    });
    proof {
        assert(run_unused == unused_pass_runs(ex, analyze_directives, *table));
    }
    if run_unused {
        let nl = noqa_directives.lines().len();
        let mut ix: usize = 0;
        while ix < nl
            invariant
                ix <= nl,
                nl == lines0.len(),
                noqa_directives@ == with_matches(lines0, fmn),
                diagnostics@.len() == n + unused_upto(lines0, fmn, *table, ix as int).len(),
                forall|j: int| 0 <= j < n ==> diagnostics@[j] == old(diagnostics)@[j],
                forall|j: int|
                    0 <= j < unused_upto(lines0, fmn, *table, ix as int).len() ==> diag_rep(
                        #[trigger] diagnostics@[n + j],
                    ) == unused_upto(lines0, fmn, *table, ix as int)[j],
            decreases nl - ix,
        {
            let ghost emitted = unused_upto(lines0, fmn, *table, ix as int);
            let line = &noqa_directives.lines()[ix];
            proof {
                assert(line@ == noqa_directives@[ix as int]);
                assert(line@.directive == lines0[ix as int].directive);
                assert(line@.matches == fmn[ix as int]);
            }
            match &line.directive {
                Directive::All(a) => {
                    if line.matches.len() == 0 {
                        let body = String::from_str("Unused type ignore directive");
                        let diag = Diagnostic::new(
                            DiagnosticKind {
                                error_code: ErrorCode::UnusedTypeIgnore,
                                body,
                            },
                            a.range,
                        );
                        diagnostics.push(diag);
                    }
                },
                Directive::Codes(c) => {
                    if !includes(ErrorCode::UnusedTypeIgnore, &c.codes) {
                        let ghost listed = codes_view(c.codes@);
                        let ghost mts = fmn[ix as int];
                        proof {
                            assert(!is_self_referential(listed));
                        }
                        let mut body = String::from_str(
                            "Unused type ignore directive, with codes: ",
                        );
                        let mut any_unmatched = false;
                        let mut unknown_found = false;
                        let mut j: usize = 0;
                        proof {
                            assert(listed.take(0) =~= Seq::<Seq<u8>>::empty());
                            assert(body@ =~= "Unused type ignore directive, with codes: "@
                                + joined_labels(unmatched_of(listed.take(0), mts, *table)));
                        }
                        while j < c.codes.len()
                            invariant
                                j <= listed.len(),
                                listed == codes_view(c.codes@),
                                mts == fmn[ix as int],
                                line@.matches == mts,
                                body@ == "Unused type ignore directive, with codes: "@
                                    + joined_labels(
                                    unmatched_of(listed.take(j as int), mts, *table),
                                ),
                                any_unmatched == (unmatched_of(
                                    listed.take(j as int),
                                    mts,
                                    *table,
                                ).len() > 0),
                                unknown_found == has_unknown(listed.take(j as int), mts),
                            decreases listed.len() - j,
                        {
                            let ghost prefix = listed.take(j as int);
                            let ghost um = unmatched_of(prefix, mts, *table);
                            let s = &c.codes[j];
                            proof {
                                assert(listed.take(j + 1).drop_last() =~= prefix);
                                assert(listed.take(j + 1).last() == listed[j as int]);
                                assert(s@ == listed[j as int]);
                            }
                            let matched = code_list_matched(s, &line.matches);
                            if !matched {
                                match ErrorCode::from_code_bytes(s.as_slice()) {
                                    Ok(rule) => {
                                        proof {
                                            assert(known_code(s@));
                                            crate::registry::lemma_code_bytes_injective(
                                                the_code(s@),
                                                rule,
                                            );
                                            assert(code_bytes(the_code(s@)) == s@);
                                            assert(the_code(s@) == rule);
                                        }
                                        if table.enabled(rule) {
                                            if any_unmatched {
                                                body.append(", ");
                                            }
                                            body.append(rule.to_str());
                                            any_unmatched = true;
                                            proof {
                                                let um2 = unmatched_of(
                                                    listed.take(j + 1),
                                                    mts,
                                                    *table,
                                                );
                                                assert(um2 =~= um.push(s@));
                                                assert(um2.drop_last() =~= um);
                                                if um.len() == 0 {
                                                    assert(joined_labels(um2) == code_label(
                                                        rule,
                                                    ));
                                                }
                                            }
                                        }
                                    },
                                    Err(_) => {
                                        unknown_found = true;
                                        proof {
                                            assert(!known_code(s@));
                                            assert(has_unknown(listed.take(j + 1), mts));
                                        }
                                    },
                                }
                            }
                            proof {
                                assert(unmatched_of(listed.take(j + 1), mts, *table).len()
                                    > 0 ==> any_unmatched);
                                assert(has_unknown(listed.take(j + 1), mts)
                                    ==> unknown_found) by {
                                    if has_unknown(listed.take(j + 1), mts)
                                        && !has_unknown(prefix, mts) {
                                        let w = choose|w: int|
                                            0 <= w < listed.take(j + 1).len() && !is_matched(
                                                #[trigger] listed.take(j + 1)[w],
                                                mts,
                                            ) && !known_code(listed.take(j + 1)[w]);
                                        assert(w == j as int);
                                    }
                                }
                            }
                            j += 1;
                        }
                        proof {
                            assert(listed.take(j as int) =~= listed);
                        }
                        if any_unmatched {
                            let diag = Diagnostic::new(
                                DiagnosticKind {
                                    error_code: ErrorCode::UnusedTypeIgnore,
                                    body,
                                },
                                c.range,
                            );
                            diagnostics.push(diag);
                        }
                        if unknown_found {
                            let body2 = String::from_str(
                                "Type ignore directive with unknown codes",
                            );
                            let diag = Diagnostic::new(
                                DiagnosticKind {
                                    error_code: ErrorCode::UnusedTypeIgnore,
                                    body: body2,
                                },
                                c.range,
                            );
                            diagnostics.push(diag);
                        }
                    }
                },
            }
            proof {
                let next = unused_upto(lines0, fmn, *table, ix + 1);
                assert(next == emitted + line_unused_reps(
                    lines0[ix as int],
                    fmn[ix as int],
                    *table,
                ));
                assert(diagnostics@.len() == n + next.len());
                assert forall|j: int| 0 <= j < next.len() implies diag_rep(
                    #[trigger] diagnostics@[n + j],
                ) == next[j] by {
                    if j < emitted.len() {
                        assert(next[j] == emitted[j]);
                    }
                }
            }
            ix += 1;
        }
        proof {
            assert(unused_upto(lines0, fmn, *table, nl as int) == unused_upto(
                lines0,
                fmn,
                *table,
                lines0.len() as int,
            ));
        }
    }
    ignored
}

} // verus!
