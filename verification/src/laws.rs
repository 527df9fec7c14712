//! Laws of the library, stated and proved over the models that the
//! functions' contracts use: the set algebra of the bitset, the projection
//! behaviour of the offset mapping, and the behaviour of the suppression
//! pass at its boundaries.

use vstd::prelude::*;
use crate::registry::{code_ord, ErrorCode};
use crate::rule_set::codes_as_set;
use crate::code_table::ErrorCodeTable;
use crate::suppression::{
    is_matched, line_unused_reps, pass1_ignored, spec_suppressed, the_code,
    unmatched_of, has_unknown, is_self_referential, DiagRep,
};
use crate::type_ignore::known_code;
use crate::text_range::TextRange;
use crate::type_ignore::{push_mapping_spec, ExemptState, DirectiveRep, LineRep};

verus! {

/// The union of two code sets does not depend on their order: with
/// `ErrorCodeSet::union` ensuring `r@ == self@.union(other@)`, exchanging
/// the operands leaves the result's model unchanged.
pub proof fn lemma_union_commutative(x: Set<int>, y: Set<int>)
    ensures
        x.union(y) == y.union(x),
{
    assert(x.union(y) =~= y.union(x));
}

/// Unions of three code sets group either way.
pub proof fn lemma_union_associative(x: Set<int>, y: Set<int>, z: Set<int>)
    ensures
        x.union(y).union(z) == x.union(y.union(z)),
{
    assert(x.union(y).union(z) =~= x.union(y.union(z)));
}

/// Subtracting a code set from itself leaves the empty set: with
/// `ErrorCodeSet::subtract` ensuring `r@ == self@.difference(other@)`, the
/// difference of a set with itself has no members.
pub proof fn lemma_subtract_self_empty(x: Set<int>)
    ensures
        x.difference(x) == Set::<int>::empty(),
{
    assert(x.difference(x) =~= Set::<int>::empty());
}

/// Round trip: a vector that enumerates a code set's members exactly once
/// each, as `ErrorCodeSet::to_vec` ensures, names the same set again when
/// handed to `ErrorCodeSet::from_error_codes`.
pub proof fn lemma_to_vec_round_trip(s: Set<int>, v: Seq<ErrorCode>)
    requires
        forall|j: int| 0 <= j < v.len() ==> s.contains(code_ord(#[trigger] v[j])),
        forall|i: int|
            s.contains(i) ==> exists|j: int| 0 <= j < v.len() && code_ord(#[trigger] v[j])
                == i,
    ensures
        codes_as_set(v) == s,
{
    assert forall|i: int| codes_as_set(v).contains(i) == s.contains(i) by {
        if codes_as_set(v).contains(i) {
            let j = choose|j: int| 0 <= j < v.len() && code_ord(#[trigger] v[j]) == i;
            assert(s.contains(i));
        }
    }
    assert(codes_as_set(v) =~= s);
}

/// Coalescing: inserting a range that overlaps the open last range merges
/// the two into one whose start is the smaller start and whose end is the
/// larger end; inserting a range strictly after the last never merges.
pub proof fn lemma_push_mapping_coalesces(acc: Seq<TextRange>, range: TextRange)
    requires
        acc.len() > 0,
        acc.last().start <= range.start,
    ensures
        acc.last().end < range.start ==> push_mapping_spec(acc, range) == acc.push(range),
        range.start <= acc.last().end ==> push_mapping_spec(acc, range) == acc.update(
            acc.len() - 1,
            TextRange {
                start: acc.last().start,
                end: if acc.last().end >= range.end {
                    acc.last().end
                } else {
                    range.end
                },
            },
        ) && push_mapping_spec(acc, range).len() == acc.len(),
{
}

/// Exemption short-circuit: under a blanket file exemption, the
/// suppression pass reports every diagnostic's index as ignored,
/// regardless of its code.
pub proof fn lemma_exemption_all_ignores_every(
    lines: Seq<LineRep>,
    m: Seq<TextRange>,
    diags: Seq<DiagRep>,
    k: int,
)
    requires
        0 <= k <= diags.len(),
    ensures
        pass1_ignored(lines, m, ExemptState::All, diags, k) == Seq::new(
            k as nat,
            |i: int| i,
        ),
    decreases k,
{
    if k == 0 {
        assert(pass1_ignored(lines, m, ExemptState::All, diags, 0) =~= Seq::new(
            0nat,
            |i: int| i,
        ));
    } else {
        lemma_exemption_all_ignores_every(lines, m, diags, k - 1);
        assert(spec_suppressed(lines, m, ExemptState::All, diags[k - 1]));
        assert(pass1_ignored(lines, m, ExemptState::All, diags, k) =~= Seq::new(
            k as nat,
            |i: int| i,
        ));
    }
}

/// Self-protection: a scoped directive that lists the unused-suppression
/// code among its own codes is never flagged as unused, whatever matched.
pub proof fn lemma_self_referential_never_flagged(
    l: LineRep,
    matches: Seq<ErrorCode>,
    table: ErrorCodeTable,
    codes: Seq<Seq<u8>>,
    start: int,
    end: int,
)
    requires
        l.directive == (DirectiveRep::Codes { start, end, codes }),
        is_self_referential(codes),
    ensures
        line_unused_reps(l, matches, table) == Seq::<DiagRep>::empty(),
{
}

/// Boundary, blanket side: a blanket directive that suppressed nothing
/// produces exactly one unused-directive report.
pub proof fn lemma_blanket_unmatched_reports_once(
    l: LineRep,
    matches: Seq<ErrorCode>,
    table: ErrorCodeTable,
    start: int,
    end: int,
)
    requires
        l.directive == (DirectiveRep::All { start, end }),
        matches.len() == 0,
    ensures
        line_unused_reps(l, matches, table).len() == 1,
        line_unused_reps(l, matches, table)[0].code == ErrorCode::UnusedTypeIgnore,
        line_unused_reps(l, matches, table)[0].range_start == start,
        line_unused_reps(l, matches, table)[0].range_end == end,
{
}

/// A listed code that is known, enabled and unmatched ends up in the
/// unmatched selection.
proof fn lemma_unmatched_of_nonempty(
    codes: Seq<Seq<u8>>,
    matches: Seq<ErrorCode>,
    table: ErrorCodeTable,
    j: int,
)
    requires
        0 <= j < codes.len(),
        !is_matched(codes[j], matches),
        known_code(codes[j]),
        table.enabled_set().contains(code_ord(the_code(codes[j]))),
    ensures
        unmatched_of(codes, matches, table).len() > 0,
    decreases codes.len(),
{
    if j == codes.len() - 1 {
        assert(codes.last() == codes[j]);
    } else {
        lemma_unmatched_of_nonempty(codes.drop_last(), matches, table, j);
        assert(codes.drop_last()[j] == codes[j]);
    }
}

/// Wrong code: a scoped directive that lists a known, enabled code which
/// suppressed nothing is reported, with the report anchored at the
/// directive's own range. A directive that lists the unused-suppression
/// code shields itself instead, so that case is left out.
pub proof fn lemma_wrong_code_is_reported(
    l: LineRep,
    matches: Seq<ErrorCode>,
    table: ErrorCodeTable,
    codes: Seq<Seq<u8>>,
    start: int,
    end: int,
    j: int,
)
    requires
        l.directive == (DirectiveRep::Codes { start, end, codes }),
        !is_self_referential(codes),
        0 <= j < codes.len(),
        !is_matched(codes[j], matches),
        known_code(codes[j]),
        table.enabled_set().contains(code_ord(the_code(codes[j]))),
    ensures
        line_unused_reps(l, matches, table).len() >= 1,
        line_unused_reps(l, matches, table)[0].code == ErrorCode::UnusedTypeIgnore,
        line_unused_reps(l, matches, table)[0].range_start == start,
        line_unused_reps(l, matches, table)[0].range_end == end,
{
    lemma_unmatched_of_nonempty(codes, matches, table, j);
}

/// Every code of a fully-matched list is matched, so none is unmatched.
proof fn lemma_unmatched_of_all_matched(
    codes: Seq<Seq<u8>>,
    matches: Seq<ErrorCode>,
    table: ErrorCodeTable,
)
    requires
        forall|j: int| 0 <= j < codes.len() ==> is_matched(#[trigger] codes[j], matches),
    ensures
        unmatched_of(codes, matches, table) == Seq::<Seq<u8>>::empty(),
    decreases codes.len(),
{
    if codes.len() > 0 {
        lemma_unmatched_of_all_matched(codes.drop_last(), matches, table);
        assert(is_matched(codes.last(), matches));
        assert(unmatched_of(codes, matches, table) =~= Seq::<Seq<u8>>::empty());
    } else {
        assert(unmatched_of(codes, matches, table) =~= Seq::<Seq<u8>>::empty());
    }
}

/// Boundary, scoped side: a scoped directive whose every listed code
/// matched something produces no report at all.
pub proof fn lemma_fully_matched_scoped_reports_nothing(
    l: LineRep,
    matches: Seq<ErrorCode>,
    table: ErrorCodeTable,
    codes: Seq<Seq<u8>>,
    start: int,
    end: int,
)
    requires
        l.directive == (DirectiveRep::Codes { start, end, codes }),
        forall|j: int| 0 <= j < codes.len() ==> is_matched(#[trigger] codes[j], matches),
    ensures
        line_unused_reps(l, matches, table) == Seq::<DiagRep>::empty(),
{
    if !is_self_referential(codes) {
        lemma_unmatched_of_all_matched(codes, matches, table);
        assert(!has_unknown(codes, matches));
        assert(line_unused_reps(l, matches, table) =~= Seq::<DiagRep>::empty());
    }
}

} // verus!
