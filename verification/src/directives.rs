//! Building the suppression offset-remapping table from the token stream:
//! multi-line strings and runs of continuation lines become ranges whose
//! offsets all resolve to the construct's last line.

use vstd::prelude::*;
use crate::locator::{line_end_of, line_start_of, Locator, NEWLINE};
use crate::text_range::TextRange;
use crate::type_ignore::{coalesce, TypeIgnoreMapping};

verus! {

/// What the remapping construction needs to know of one token.
#[derive(Clone, Copy, Debug, PartialEq, Eq, Structural)]
pub enum TokenKind {
    /// A string token written with triple quotes.
    TripleQuotedString,
    /// The end-of-file sentinel.
    EndOfFile,
    /// Any other token.
    Other,
}

/// One token of the lexed file: its kind and its byte range.
#[derive(Clone, Copy, Debug, PartialEq, Eq, Structural)]
pub struct TokenInfo {
    pub kind: TokenKind,
    pub range: TextRange,
}

/// Whether the bytes of `r` hold a line feed.
pub open spec fn range_has_line_break(text: Seq<u8>, r: TextRange) -> bool {
    exists|i: int| r.start <= i < r.end && text[i] == NEWLINE
}

/// The end of the line containing `offset`, including its line feed when
/// one is present.
pub open spec fn full_line_end_of(text: Seq<u8>, offset: int) -> int {
    if line_end_of(text, offset) < text.len() {
        line_end_of(text, offset) + 1
    } else {
        text.len() as int
    }
}

/// The candidate ranges contributed by multi-line string tokens, stopping
/// at the end-of-file sentinel: for each triple-quoted string crossing a
/// line break, the range from the start of its first line to its end.
pub open spec fn string_ranges_of(text: Seq<u8>, tokens: Seq<TokenInfo>) -> Seq<TextRange>
    decreases tokens.len(),
{
    if tokens.len() == 0 {
        Seq::empty()
    } else {
        match tokens[0].kind {
            TokenKind::EndOfFile => Seq::empty(),
            TokenKind::TripleQuotedString => if range_has_line_break(text, tokens[0].range) {
                seq![
                    TextRange {
                        start: line_start_of(text, tokens[0].range.start as int) as usize,
                        end: tokens[0].range.end,
                    },
                ] + string_ranges_of(text, tokens.drop_first())
            } else {
                string_ranges_of(text, tokens.drop_first())
            },
            TokenKind::Other => string_ranges_of(text, tokens.drop_first()),
        }
    }
}

/// One step of folding a continuation-line start into the run state: a
/// start adjacent to the open run extends it to its own full line end;
/// otherwise the open run is closed and a new one begins.
pub open spec fn cont_step(
    acc: Seq<TextRange>,
    open: Option<TextRange>,
    text: Seq<u8>,
    c: int,
) -> (Seq<TextRange>, Option<TextRange>) {
    let le = full_line_end_of(text, c);
    match open {
        Some(lr) => if lr.end == c {
            (acc, Some(TextRange { start: lr.start, end: le as usize }))
        } else {
            (acc.push(lr), Some(TextRange { start: c as usize, end: le as usize }))
        },
        None => (acc, Some(TextRange { start: c as usize, end: le as usize })),
    }
}

/// The run state after folding the first `starts` continuation-line starts.
pub open spec fn cont_state(text: Seq<u8>, starts: Seq<usize>) -> (
    Seq<TextRange>,
    Option<TextRange>,
)
    decreases starts.len(),
{
    if starts.len() == 0 {
        (Seq::empty(), None::<TextRange>)
    } else {
        let prev = cont_state(text, starts.drop_last());
        cont_step(prev.0, prev.1, text, starts.last() as int)
    }
}

/// The candidate ranges contributed by runs of continuation lines.
pub open spec fn continuation_ranges_of(text: Seq<u8>, starts: Seq<usize>) -> Seq<
    TextRange,
> {
    let s = cont_state(text, starts);
    match s.1 {
        Some(lr) => s.0.push(lr),
        None => s.0,
    }
}

/// The two sorted candidate lists, merged by ascending start offset; ties
/// go to the first list.
pub open spec fn merge_by_start(a: Seq<TextRange>, b: Seq<TextRange>) -> Seq<TextRange>
    decreases a.len() + b.len(),
{
    if a.len() == 0 {
        b
    } else if b.len() == 0 {
        a
    } else if a[0].start <= b[0].start {
        seq![a[0]] + merge_by_start(a.drop_first(), b)
    } else {
        seq![b[0]] + merge_by_start(a, b.drop_first())
    }
}

/// `line_start_of` is monotone in the offset.
proof fn lemma_line_start_monotone(text: Seq<u8>, a: int, b: int)
    requires
        0 <= a <= b <= text.len(),
    ensures
        line_start_of(text, a) <= line_start_of(text, b),
{
    crate::locator::lemma_line_start_of_props(text, a);
    let ls = line_start_of(text, a);
    crate::type_ignore::lemma_line_start_ge(text, b, ls);
}

/// A line start strictly after `s` lies at or beyond the full end of the
/// line containing `s`.
proof fn lemma_line_start_beyond_full_end(text: Seq<u8>, s: int, c: int)
    requires
        0 <= s <= text.len(),
        s < c <= text.len(),
        c == 0 || text[c - 1] == NEWLINE,
    ensures
        full_line_end_of(text, s) <= c,
{
    crate::locator::lemma_line_end_of_props(text, s);
    let le = line_end_of(text, s);
    if le < text.len() {
        // The line feed at c - 1 is at or after the first line feed from s.
        assert(s <= c - 1);
        if c - 1 < le {
            assert(text[c - 1] != NEWLINE);
        }
    }
}

/// Sortedness of a candidate list: starts never decrease.
pub open spec fn sorted_by_start(rs: Seq<TextRange>) -> bool {
    forall|i: int, j: int| 0 <= i < j < rs.len() ==> rs[i].start <= rs[j].start
}

/// Well-formed candidates: each range in bounds and non-inverted.
pub open spec fn ranges_wf(rs: Seq<TextRange>, len: int) -> bool {
    forall|i: int| 0 <= i < rs.len() ==> (#[trigger] rs[i]).wf() && rs[i].end <= len
}

/// Merging keeps sortedness and well-formedness.
proof fn lemma_merge_sorted(a: Seq<TextRange>, b: Seq<TextRange>, len: int)
    requires
        sorted_by_start(a),
        sorted_by_start(b),
        ranges_wf(a, len),
        ranges_wf(b, len),
    ensures
        sorted_by_start(merge_by_start(a, b)),
        ranges_wf(merge_by_start(a, b), len),
        merge_by_start(a, b).len() == a.len() + b.len(),
        forall|i: int|
            0 <= i < merge_by_start(a, b).len() ==> (a.len() > 0 && a[0].start <= (
            #[trigger] merge_by_start(a, b)[i]).start) || (b.len() > 0 && b[0].start
                <= merge_by_start(a, b)[i].start),
    decreases a.len() + b.len(),
{
    if a.len() == 0 || b.len() == 0 {
    } else if a[0].start <= b[0].start {
        lemma_merge_sorted(a.drop_first(), b, len);
        let m = merge_by_start(a, b);
        let rest = merge_by_start(a.drop_first(), b);
        assert forall|i: int, j: int|
            0 <= i < j < m.len() implies m[i].start <= m[j].start by {
            if i > 0 {
                assert(m[i] == rest[i - 1] && m[j] == rest[j - 1]);
            } else {
                assert(m[j] == rest[j - 1]);
            }
        }
        assert forall|i: int| 0 <= i < m.len() implies (#[trigger] m[i]).wf() && m[i].end
            <= len by {
            if i > 0 {
                assert(m[i] == rest[i - 1]);
            }
        }
    } else {
        lemma_merge_sorted(a, b.drop_first(), len);
        let m = merge_by_start(a, b);
        let rest = merge_by_start(a, b.drop_first());
        assert forall|i: int, j: int|
            0 <= i < j < m.len() implies m[i].start <= m[j].start by {
            if i > 0 {
                assert(m[i] == rest[i - 1] && m[j] == rest[j - 1]);
            } else {
                assert(m[j] == rest[j - 1]);
            }
        }
        assert forall|i: int| 0 <= i < m.len() implies (#[trigger] m[i]).wf() && m[i].end
            <= len by {
            if i > 0 {
                assert(m[i] == rest[i - 1]);
            }
        }
    }
}

/// Extract the offset-remapping table for one file from its token stream
/// and its continuation-line starts: multi-line strings and continuation
/// runs map to ranges ending on their last physical line.
pub fn extract_noqa_line_for(
    tokens: &Vec<TokenInfo>,
    locator: &Locator,
    continuation_line_starts: &Vec<usize>,
) -> (r: TypeIgnoreMapping)
    requires
        forall|i: int|
            0 <= i < tokens@.len() ==> (#[trigger] tokens@[i]).range.wf()
                && tokens@[i].range.end <= locator@.len(),
        forall|i: int, j: int|
            0 <= i < j < tokens@.len() ==> tokens@[i].range.start <= tokens@[j].range.start,
        forall|i: int|
            0 <= i < continuation_line_starts@.len() ==> (#[trigger] continuation_line_starts@[i])
                <= locator@.len() && (continuation_line_starts@[i] == 0 || locator@[
                continuation_line_starts@[i] - 1
            ] == NEWLINE),
        forall|i: int, j: int|
            0 <= i < j < continuation_line_starts@.len() ==> continuation_line_starts@[i]
                < continuation_line_starts@[j],
    ensures
        r@ == coalesce(
            merge_by_start(
                continuation_ranges_of(locator@, continuation_line_starts@),
                string_ranges_of(locator@, tokens@),
            ),
        ),
        r.wf(),
{
    let string_mappings = string_candidates(tokens, locator);
    let continuation_mappings = continuation_candidates(continuation_line_starts, locator);
    proof {
        lemma_merge_sorted(continuation_mappings@, string_mappings@, locator@.len() as int);
    }
    let merged = merge_candidates(&continuation_mappings, &string_mappings);
    TypeIgnoreMapping::from_ranges(&merged)
}

/// The candidate ranges of the multi-line string tokens, in order.
#[verifier::loop_isolation(false)]
fn string_candidates(tokens: &Vec<TokenInfo>, locator: &Locator) -> (r: Vec<TextRange>)
    requires
        forall|i: int|
            0 <= i < tokens@.len() ==> (#[trigger] tokens@[i]).range.wf()
                && tokens@[i].range.end <= locator@.len(),
        forall|i: int, j: int|
            0 <= i < j < tokens@.len() ==> tokens@[i].range.start <= tokens@[j].range.start,
    ensures
        r@ == string_ranges_of(locator@, tokens@),
        sorted_by_start(r@),
        ranges_wf(r@, locator@.len() as int),
{
    let ghost text = locator@;
    let mut string_mappings: Vec<TextRange> = Vec::new();
    let mut i: usize = 0;
    let mut stopped = false;
    proof {
        assert(tokens@.skip(0) =~= tokens@);
        assert(string_mappings@ + string_ranges_of(text, tokens@) =~= string_ranges_of(
            text,
            tokens@,
        ));
    }
    while i < tokens.len() && !stopped
        invariant
            i <= tokens@.len(),
            string_ranges_of(text, tokens@) == string_mappings@ + (if stopped {
                Seq::<TextRange>::empty()
            } else {
                string_ranges_of(text, tokens@.skip(i as int))
            }),
            sorted_by_start(string_mappings@),
            ranges_wf(string_mappings@, text.len() as int),
            !stopped ==> forall|k: int, j: int|
                #![trigger string_mappings@[k], tokens@[j]]
                0 <= k < string_mappings@.len() && i <= j < tokens@.len()
                    ==> string_mappings@[k].start <= line_start_of(
                    text,
                    tokens@[j].range.start as int,
                ) && string_mappings@[k].start <= tokens@[j].range.start,
        decreases tokens@.len() - i + if stopped { 0int } else { 1int },
    {
        let ghost rest = tokens@.skip(i as int);
        proof {
            assert(rest.drop_first() =~= tokens@.skip(i + 1));
            assert(rest[0] == tokens@[i as int]);
        }
        let token = tokens[i];
        match token.kind {
            TokenKind::EndOfFile => {
                stopped = true;
            },
            TokenKind::TripleQuotedString => {
                if locator.contains_line_break(&token.range) {
                    let ls = locator.line_start(token.range.start);
                    proof {
                        crate::locator::lemma_line_start_of_props(
                            text,
                            token.range.start as int,
                        );
                        assert forall|j: int|
                            #![trigger tokens@[j]]
                            i + 1 <= j < tokens@.len() implies ls <= line_start_of(
                            text,
                            tokens@[j].range.start as int,
                        ) && ls <= tokens@[j].range.start by {
                            lemma_line_start_monotone(
                                text,
                                token.range.start as int,
                                tokens@[j].range.start as int,
                            );
                        }
                    }
                    string_mappings.push(TextRange::new(ls, token.range.end));
                    proof {
                        assert(string_mappings@ =~= string_mappings@.drop_last().push(
                            TextRange { start: ls, end: token.range.end },
                        ));
                    }
                }
                i = i + 1;
            },
            TokenKind::Other => {
                i = i + 1;
            },
        }
    }
    proof {
        if !stopped {
            assert(tokens@.skip(i as int) =~= Seq::<TokenInfo>::empty());
        }
        assert(string_mappings@ =~= string_ranges_of(text, tokens@));
    }
    string_mappings
}

/// The candidate ranges of the continuation-line runs, in order.
#[verifier::loop_isolation(false)]
fn continuation_candidates(continuation_line_starts: &Vec<usize>, locator: &Locator) -> (r:
    Vec<TextRange>)
    requires
        forall|i: int|
            0 <= i < continuation_line_starts@.len() ==> (#[trigger] continuation_line_starts@[i])
                <= locator@.len() && (continuation_line_starts@[i] == 0 || locator@[
                continuation_line_starts@[i] - 1
            ] == NEWLINE),
        forall|i: int, j: int|
            0 <= i < j < continuation_line_starts@.len() ==> continuation_line_starts@[i]
                < continuation_line_starts@[j],
    ensures
        r@ == continuation_ranges_of(locator@, continuation_line_starts@),
        sorted_by_start(r@),
        ranges_wf(r@, locator@.len() as int),
{
    let ghost text = locator@;
    let mut continuation_mappings: Vec<TextRange> = Vec::new();
    let mut open: Option<TextRange> = None;
    let mut c: usize = 0;
    proof {
        assert(continuation_line_starts@.take(0) =~= Seq::<usize>::empty());
    }
    while c < continuation_line_starts.len()
        invariant
            c <= continuation_line_starts@.len(),
            cont_state(text, continuation_line_starts@.take(c as int)) == (
                continuation_mappings@,
                open,
            ),
            sorted_by_start(continuation_mappings@),
            ranges_wf(continuation_mappings@, text.len() as int),
            match open {
                Some(lr) => lr.wf() && lr.end <= text.len() && (forall|k: int|
                    0 <= k < continuation_mappings@.len()
                        ==> (#[trigger] continuation_mappings@[k]).start <= lr.start) && (
                forall|j: int|
                    c <= j < continuation_line_starts@.len() ==> lr.start < (
                    #[trigger] continuation_line_starts@[j]) && lr.end
                        <= continuation_line_starts@[j]),
                None => continuation_mappings@.len() == 0,
            },
        decreases continuation_line_starts@.len() - c,
    {
        let start = continuation_line_starts[c];
        let line_end = locator.full_line_end(start);
        proof {
            crate::locator::lemma_line_end_of_props(text, start as int);
            assert forall|j: int|
                c + 1 <= j < continuation_line_starts@.len() implies line_end <= (
                #[trigger] continuation_line_starts@[j]) by {
                lemma_line_start_beyond_full_end(
                    text,
                    start as int,
                    continuation_line_starts@[j] as int,
                );
            }
        }
        let next = match open {
            Some(lr) => {
                if lr.end == start {
                    TextRange::new(lr.start, line_end)
                } else {
                    continuation_mappings.push(lr);
                    TextRange::new(start, line_end)
                }
            },
            None => TextRange::new(start, line_end),
        };
        open = Some(next);
        proof {
            let taken = continuation_line_starts@.take(c + 1);
            assert(taken.drop_last() =~= continuation_line_starts@.take(c as int));
            assert(taken.last() == continuation_line_starts@[c as int]);
        }
        c = c + 1;
    }
    proof {
        assert(continuation_line_starts@.take(c as int) =~= continuation_line_starts@);
    }
    if let Some(lr) = open {
        continuation_mappings.push(lr);
    }
    proof {
        assert(continuation_mappings@ =~= continuation_ranges_of(
            text,
            continuation_line_starts@,
        ));
    }
    continuation_mappings
}

/// Merge the two sorted candidate lists by ascending start offset; ties go
/// to the first list.
#[verifier::loop_isolation(false)]
fn merge_candidates(conts_v: &Vec<TextRange>, strs_v: &Vec<TextRange>) -> (r: Vec<
    TextRange,
>)
    ensures
        r@ == merge_by_start(conts_v@, strs_v@),
{
    let ghost conts = conts_v@;
    let ghost strs = strs_v@;
    let mut merged: Vec<TextRange> = Vec::new();
    let mut p: usize = 0;
    let mut q: usize = 0;
    proof {
        assert(conts.skip(0) =~= conts);
        assert(strs.skip(0) =~= strs);
        assert(merged@ + merge_by_start(conts, strs) =~= merge_by_start(conts, strs));
    }
    while p < conts_v.len() || q < strs_v.len()
        invariant
            p <= conts.len(),
            q <= strs.len(),
            merge_by_start(conts, strs) == merged@ + merge_by_start(
                conts.skip(p as int),
                strs.skip(q as int),
            ),
        decreases conts.len() - p + strs.len() - q,
    {
        let ghost ca = conts.skip(p as int);
        let ghost sb = strs.skip(q as int);
        let take_cont = if p < conts_v.len() {
            if q < strs_v.len() {
                conts_v[p].start <= strs_v[q].start
            } else {
                true
            }
        } else {
            false
        };
        if take_cont {
            proof {
                assert(ca[0] == conts[p as int]);
                assert(ca.drop_first() =~= conts.skip(p + 1));
                if sb.len() == 0 {
                    assert(merge_by_start(ca, sb) =~= seq![ca[0]] + merge_by_start(
                        ca.drop_first(),
                        sb,
                    ));
                }
            }
            merged.push(conts_v[p]);
            p = p + 1;
        } else {
            proof {
                assert(sb[0] == strs[q as int]);
                assert(sb.drop_first() =~= strs.skip(q + 1));
                if ca.len() == 0 {
                    assert(merge_by_start(ca, sb) =~= seq![sb[0]] + merge_by_start(
                        ca,
                        sb.drop_first(),
                    ));
                }
            }
            merged.push(strs_v[q]);
            q = q + 1;
        }
        proof {
            assert(merge_by_start(conts, strs) =~= merged@ + merge_by_start(
                conts.skip(p as int),
                strs.skip(q as int),
            ));
        }
    }
    proof {
        assert(conts.skip(p as int) =~= Seq::<TextRange>::empty());
        assert(strs.skip(q as int) =~= Seq::<TextRange>::empty());
        assert(merged@ =~= merge_by_start(conts, strs));
    }
    merged
}

} // verus!
