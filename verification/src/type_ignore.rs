//! The suppression-directive engine: parsing `# type: ignore` comments,
//! remapping offsets that fall inside multi-line constructs to the
//! construct's last line, and file-level exemptions.

use vstd::prelude::*;
use crate::locator::{line_end_of, line_start_of, Locator};
use crate::registry::{code_bytes, ErrorCode};
use crate::text_range::TextRange;

verus! {

/// What one insertion does to a mapping: append the range when it lies
/// strictly after the last one, otherwise merge it into the last one.
pub open spec fn push_mapping_spec(acc: Seq<TextRange>, range: TextRange) -> Seq<TextRange> {
    if acc.len() == 0 {
        seq![range]
    } else if acc.last().end < range.start {
        acc.push(range)
    } else {
        acc.update(
            acc.len() - 1,
            TextRange {
                start: if acc.last().start <= range.start {
                    acc.last().start
                } else {
                    range.start
                },
                end: if acc.last().end >= range.end {
                    acc.last().end
                } else {
                    range.end
                },
            },
        )
    }
}

/// The mapping built by inserting every range of `rs` in order.
pub open spec fn coalesce(rs: Seq<TextRange>) -> Seq<TextRange>
    decreases rs.len(),
{
    if rs.len() == 0 {
        Seq::empty()
    } else {
        push_mapping_spec(coalesce(rs.drop_last()), rs.last())
    }
}

/// The remapped position of `offset`: the end of the range containing it,
/// or `offset` itself when no range does.
pub open spec fn resolve_spec(ranges: Seq<TextRange>, offset: int) -> int {
    if exists|i: int| 0 <= i < ranges.len() && #[trigger] ranges[i].spec_contains(offset) {
        ranges[choose|i: int|
            0 <= i < ranges.len() && #[trigger] ranges[i].spec_contains(offset)].end as int
    } else {
        offset
    }
}

/// Remaps offsets falling into one of the ranges to the range's end, so that
/// a diagnostic inside a multi-line construct is governed by a suppression
/// comment on the construct's last line.
#[derive(Clone, Debug, PartialEq, Eq)]
pub struct TypeIgnoreMapping {
    ranges: Vec<TextRange>,
}

impl View for TypeIgnoreMapping {
    type V = Seq<TextRange>;

    closed spec fn view(&self) -> Seq<TextRange> {
        self.ranges@
    }
}

impl TypeIgnoreMapping {
    /// Ranges are well-formed and strictly sorted: each ends before the next
    /// starts.
    pub open spec fn wf(self) -> bool {
        &&& forall|i: int| 0 <= i < self@.len() ==> (#[trigger] self@[i]).wf()
        &&& forall|i: int, j: int|
            0 <= i < j < self@.len() ==> self@[i].end < self@[j].start
    }

    /// At most one range contains any given offset.
    pub proof fn lemma_unique_containing(self, offset: int, i: int, j: int)
        requires
            self.wf(),
            0 <= i < self@.len(),
            0 <= j < self@.len(),
            self@[i].spec_contains(offset),
            self@[j].spec_contains(offset),
        ensures
            i == j,
    {
    }

    pub fn new() -> (r: Self)
        ensures
            r@ == Seq::<TextRange>::empty(),
            r.wf(),
    {
        TypeIgnoreMapping { ranges: Vec::new() }
    }

    pub fn with_capacity(capacity: usize) -> (r: Self)
        ensures
            r@ == Seq::<TextRange>::empty(),
            r.wf(),
    {
        TypeIgnoreMapping { ranges: Vec::with_capacity(capacity) }
    }

    pub fn is_empty(&self) -> (r: bool)
        ensures
            r == (self@.len() == 0),
    {
        self.ranges.len() == 0
    }

    /// Returns the re-mapped position, or `offset` if no mapping covers it.
    pub fn resolve(&self, offset: usize) -> (r: usize)
        requires
            self.wf(),
        ensures
            r == resolve_spec(self@, offset as int),
    {
        let mut lo: usize = 0;
        let mut hi: usize = self.ranges.len();
        while lo < hi
            invariant
                lo <= hi <= self@.len(),
                forall|k: int| 0 <= k < lo ==> (#[trigger] self@[k]).end < offset,
                forall|k: int| hi <= k < self@.len() ==> offset < (#[trigger] self@[k]).start,
                self.wf(),
            decreases hi - lo,
        {
            let mid = lo + (hi - lo) / 2;
            let range = self.ranges[mid];
            if range.end < offset {
                lo = mid + 1;
            } else if range.start <= offset {
                proof {
                    assert(self@[mid as int].spec_contains(offset as int));
                }
                return range.end;
            } else {
                hi = mid;
            }
        }
        proof {
            assert forall|i: int|
                0 <= i < self@.len() implies !(#[trigger] self@[i].spec_contains(
                offset as int,
            )) by {}
        }
        offset
    }

    /// Insert a range at the end of the mapping. Ranges must arrive in
    /// non-decreasing start order; an insertion overlapping the last range
    /// is coalesced into it.
    pub fn push_mapping(&mut self, range: TextRange)
        requires
            old(self).wf(),
            range.wf(),
            old(self)@.len() > 0 ==> old(self)@.last().start <= range.start,
        ensures
            final(self)@ == push_mapping_spec(old(self)@, range),
            final(self).wf(),
    {
        let n = self.ranges.len();
        if n > 0 {
            let last = self.ranges[n - 1];
            if last.end < range.start {
                // strictly after: plain append
            } else {
                // overlap with the last range: merge the two into one
                let merged = last.cover(&range);
                self.ranges[n - 1] = merged;
                return;
            }
        }
        self.ranges.push(range);
    }

    /// The mapping built from `ranges`, inserted in order. Ranges must be
    /// well-formed and sorted by non-decreasing start.
    pub fn from_ranges(ranges: &Vec<TextRange>) -> (r: Self)
        requires
            forall|i: int| 0 <= i < ranges@.len() ==> (#[trigger] ranges@[i]).wf(),
            forall|i: int, j: int|
                0 <= i < j < ranges@.len() ==> ranges@[i].start <= ranges@[j].start,
        ensures
            r@ == coalesce(ranges@),
            r.wf(),
    {
        let mut mapping = TypeIgnoreMapping::new();
        let mut i: usize = 0;
        while i < ranges.len()
            invariant
                i <= ranges@.len(),
                mapping@ == coalesce(ranges@.take(i as int)),
                mapping.wf(),
                mapping@.len() > 0 && i < ranges@.len() ==> mapping@.last().start
                    <= ranges@[i as int].start,
                forall|k: int| 0 <= k < ranges@.len() ==> (#[trigger] ranges@[k]).wf(),
                forall|k: int, j: int|
                    0 <= k < j < ranges@.len() ==> ranges@[k].start <= ranges@[j].start,
            decreases ranges@.len() - i,
        {
            let ghost prefix = ranges@.take(i as int);
            mapping.push_mapping(ranges[i]);
            proof {
                assert(ranges@.take(i + 1).drop_last() =~= prefix);
                assert(ranges@.take(i + 1).last() == ranges@[i as int]);
                if mapping@.len() > 0 && i + 1 < ranges@.len() {
                    assert(mapping@.last().start <= ranges@[i + 1].start);
                }
            }
            i += 1;
        }
        proof {
            assert(ranges@.take(i as int) =~= ranges@);
        }
        mapping
    }
}

/// Resolving is idempotent: an already-resolved anchor resolves to itself,
/// because ranges do not overlap and `resolve` projects onto range ends.
pub proof fn lemma_resolve_idempotent(m: TypeIgnoreMapping, offset: int)
    requires
        m.wf(),
    ensures
        resolve_spec(m@, resolve_spec(m@, offset)) == resolve_spec(m@, offset),
{
    if exists|i: int| 0 <= i < m@.len() && #[trigger] m@[i].spec_contains(offset) {
        let i = choose|i: int| 0 <= i < m@.len() && #[trigger] m@[i].spec_contains(offset);
        let e = m@[i].end as int;
        assert(m@[i].spec_contains(e));
        if exists|j: int| 0 <= j < m@.len() && #[trigger] m@[j].spec_contains(e) {
            let j = choose|j: int| 0 <= j < m@.len() && #[trigger] m@[j].spec_contains(e);
            m.lemma_unique_containing(e, i, j);
        }
    }
}

} // verus!

verus! {

// ---------------------------------------------------------------------------
// Directive grammar. The surface syntax of one suppression comment is given
// by the spec functions below; the executable parser is proved to return
// exactly the outcome they describe.
// ---------------------------------------------------------------------------

/// `x` clamped to zero from below.
pub open spec fn nat_of(x: int) -> nat {
    if x >= 0 {
        x as nat
    } else {
        0
    }
}

/// The byte length of the UTF-8 encoded whitespace character starting at
/// `p`, or 0 when the bytes at `p` start none. The recognized characters
/// are the code points with the White_Space property: the ASCII whitespace
/// bytes, next line, no-break space, ogham space mark, the en-quad family
/// through hair space, line and paragraph separator, narrow no-break
/// space, medium mathematical space, and ideographic space.
pub open spec fn ws_len_at(text: Seq<u8>, p: int) -> int {
    if p < 0 || p >= text.len() {
        0
    } else {
        let b0 = text[p];
        if b0 == 32 || (9 <= b0 && b0 <= 13) {
            1
        } else if b0 == 194 && p + 2 <= text.len() && (text[p + 1] == 133 || text[p + 1]
            == 160) {
            2
        } else if b0 == 225 && p + 3 <= text.len() && text[p + 1] == 154 && text[p + 2]
            == 128 {
            3
        } else if b0 == 226 && p + 3 <= text.len() && text[p + 1] == 128 && ((128 <= text[p
            + 2] && text[p + 2] <= 138) || text[p + 2] == 168 || text[p + 2] == 169
            || text[p + 2] == 175) {
            3
        } else if b0 == 226 && p + 3 <= text.len() && text[p + 1] == 129 && text[p + 2]
            == 159 {
            3
        } else if b0 == 227 && p + 3 <= text.len() && text[p + 1] == 128 && text[p + 2]
            == 128 {
            3
        } else {
            0
        }
    }
}

/// The byte length of the whitespace character whose encoding ends just
/// before `i`, or 0 when none does.
pub open spec fn ws_len_before(text: Seq<u8>, i: int) -> int {
    if i >= 1 && ws_len_at(text, i - 1) == 1 {
        1
    } else if i >= 2 && ws_len_at(text, i - 2) == 2 {
        2
    } else if i >= 3 && ws_len_at(text, i - 3) == 3 {
        3
    } else {
        0
    }
}

/// First position in `[from, hi)` at which no whitespace character starts;
/// -1 if whitespace characters run to `hi` or beyond.
pub open spec fn first_non_ws(text: Seq<u8>, from: int, hi: int) -> int
    decreases nat_of(hi - from),
{
    if from >= hi {
        -1
    } else if ws_len_at(text, from) == 0 {
        from
    } else {
        first_non_ws(text, from + ws_len_at(text, from), hi)
    }
}

/// Where a whitespace scan from `from` lands: the first non-whitespace
/// position, or `from` itself when everything up to `hi` is whitespace.
pub open spec fn skip_ws_spec(text: Seq<u8>, from: int, hi: int) -> int {
    if first_non_ws(text, from, hi) == -1 {
        from
    } else {
        first_non_ws(text, from, hi)
    }
}

/// First position in `[from, hi)` holding byte `b`; -1 if none.
pub open spec fn find_byte_spec(text: Seq<u8>, from: int, hi: int, b: u8) -> int
    decreases nat_of(hi - from),
{
    if from >= hi {
        -1
    } else if text[from] == b {
        from
    } else {
        find_byte_spec(text, from + 1, hi, b)
    }
}

/// End of the code token starting at `from`: the first comma or whitespace
/// before `hi`, or `hi` itself.
pub open spec fn code_end_spec(text: Seq<u8>, from: int, hi: int) -> int
    decreases nat_of(hi - from),
{
    if from >= hi {
        hi
    } else if text[from] == 44 || ws_len_at(text, from) > 0 {
        from
    } else {
        code_end_spec(text, from + 1, hi)
    }
}

/// Position left of `i` after trimming trailing whitespace characters,
/// floored at `lo`.
pub open spec fn trim_end_spec(text: Seq<u8>, lo: int, i: int) -> int
    decreases nat_of(i - lo),
{
    if i <= lo {
        lo
    } else if ws_len_before(text, i) == 0 || i - ws_len_before(text, i) < lo {
        i
    } else {
        trim_end_spec(text, lo, i - ws_len_before(text, i))
    }
}

/// Whether byte `b` is the letter `lower` in either case (`lower` given in
/// lower case).
pub open spec fn letter_ci(b: u8, lower: u8) -> bool {
    b == lower || b as int == lower as int - 32
}

/// The bytes `type:` begin at `i`, the letters in either case.
pub open spec fn is_type_colon_at(text: Seq<u8>, i: int, hi: int) -> bool {
    &&& i + 5 <= hi
    &&& letter_ci(text[i], 116)
    &&& letter_ci(text[i + 1], 121)
    &&& letter_ci(text[i + 2], 112)
    &&& letter_ci(text[i + 3], 101)
    &&& text[i + 4] == 58
}

/// The bytes `ignore` begin at `g`, the letters in either case.
pub open spec fn is_ignore_at(text: Seq<u8>, g: int, hi: int) -> bool {
    &&& g + 6 <= hi
    &&& letter_ci(text[g], 105)
    &&& letter_ci(text[g + 1], 103)
    &&& letter_ci(text[g + 2], 110)
    &&& letter_ci(text[g + 3], 111)
    &&& letter_ci(text[g + 4], 114)
    &&& letter_ci(text[g + 5], 101)
}

/// The reason a suppression comment is rejected as malformed.
#[derive(Clone, Copy, Debug, PartialEq, Eq, Structural)]
pub enum ParseError {
    /// The bracketed list after `ignore` holds no codes.
    MissingCodes,
    /// After `ignore` the line continues with something other than a
    /// bracket or a new `#` comment.
    InvalidSuffix,
    /// The bracket after `ignore` is never closed.
    NoClosingBracket,
    /// Two codes in the bracketed list are not separated by a comma.
    MissingComma,
}

impl ParseError {
    /// The message shown when the malformed directive is reported.
    pub fn message(&self) -> (r: &'static str)
        ensures
            *self == ParseError::MissingCodes ==> r@ == "expected a comma-separated list of codes"@,
            *self == ParseError::InvalidSuffix ==> r@
                == "the directive must be followed by brackets or a new comment"@,
            *self == ParseError::NoClosingBracket ==> r@
                == "bracket after the directive is not closed"@,
            *self == ParseError::MissingComma ==> r@ == "expected a comma between codes"@,
    {
        match self {
            ParseError::MissingCodes => "expected a comma-separated list of codes",
            ParseError::InvalidSuffix => "the directive must be followed by brackets or a new comment",
            ParseError::NoClosingBracket => "bracket after the directive is not closed",
            ParseError::MissingComma => "expected a comma between codes",
        }
    }
}

/// The mathematical form of a parsed directive: its comment range and, for
/// the scoped form, the listed code byte strings.
pub enum DirectiveRep {
    All { start: int, end: int },
    Codes { start: int, end: int, codes: Seq<Seq<u8>> },
}

/// The outcome of trying to match a directive at one scan position.
pub enum MatchStep {
    Continue,
    Fail(ParseError),
    Found(DirectiveRep),
}

/// The outcome of scanning a whole comment for a directive.
pub enum DirectiveOutcome {
    NotFound,
    Fail(ParseError),
    Found(DirectiveRep),
}


proof fn lemma_first_non_ws_ge(text: Seq<u8>, from: int, hi: int)
    ensures
        first_non_ws(text, from, hi) == -1 || first_non_ws(text, from, hi) >= from,
    decreases nat_of(hi - from),
{
    if from < hi && ws_len_at(text, from) != 0 {
        lemma_first_non_ws_ge(text, from + ws_len_at(text, from), hi);
    }
}

proof fn lemma_code_end_ge(text: Seq<u8>, from: int, hi: int)
    requires
        from <= hi,
    ensures
        from <= code_end_spec(text, from, hi) <= hi,
    decreases nat_of(hi - from),
{
    if from < hi && !(text[from] == 44 || ws_len_at(text, from) > 0) {
        lemma_code_end_ge(text, from + 1, hi);
    }
}

/// The outcome of parsing the bracketed code list.
pub enum CodesStep {
    CFail(ParseError),
    CDone(Seq<Seq<u8>>, int),
}

/// Parse the comma-separated code tokens from `pos` up to the closing
/// bracket at `be`: each token runs to the next comma or whitespace, and
/// tokens must be separated by exactly one comma (whitespace aside).
pub open spec fn parse_codes_spec(
    text: Seq<u8>,
    pos: int,
    be: int,
    hi: int,
    acc: Seq<Seq<u8>>,
) -> CodesStep
    decreases nat_of(be + 1 - pos),
    via parse_codes_spec_dec
{
    if pos >= be {
        CodesStep::CDone(acc, pos)
    } else {
        let ce = code_end_spec(text, pos, be);
        let acc2 = acc.push(text.subrange(pos, ce));
        let p2 = skip_ws_spec(text, ce, hi);
        if p2 >= be {
            CodesStep::CDone(acc2, p2)
        } else if text[p2] != 44 {
            CodesStep::CFail(ParseError::MissingComma)
        } else {
            let p3 = skip_ws_spec(text, p2 + 1, hi);
            if p3 > be {
                // Unreachable when `be` holds the closing bracket, which is
                // not whitespace; kept so the recursion is total.
                CodesStep::CDone(acc2, p3)
            } else {
                parse_codes_spec(text, p3, be, hi, acc2)
            }
        }
    }
}


#[via_fn]
proof fn parse_codes_spec_dec(text: Seq<u8>, pos: int, be: int, hi: int, acc: Seq<Seq<u8>>) {
    if pos < be {
        let ce = code_end_spec(text, pos, be);
        lemma_code_end_ge(text, pos, be);
        let p2 = skip_ws_spec(text, ce, hi);
        lemma_first_non_ws_ge(text, ce, hi);
        if p2 < be && text[p2] == 44 {
            lemma_first_non_ws_ge(text, p2 + 1, hi);
        }
    }
}

/// The attempt to read a directive whose `type` keyword starts at `i`,
/// within the comment text `[lo, hi)`.
pub open spec fn match_at(text: Seq<u8>, lo: int, hi: int, i: int) -> MatchStep {
    if !(text[i] == 116 || text[i] == 84) {
        MatchStep::Continue
    } else if !is_type_colon_at(text, i, hi) {
        MatchStep::Continue
    } else {
        let ig = skip_ws_spec(text, i + 5, hi);
        if !is_ignore_at(text, ig, hi) {
            MatchStep::Continue
        } else {
            let j = trim_end_spec(text, lo, i);
            if j <= lo || text[j - 1] != 35 {
                MatchStep::Continue
            } else {
                let cs = j - 1;
                let e = ig + 6;
                if e >= hi {
                    MatchStep::Found(DirectiveRep::All { start: cs, end: e })
                } else if text[e] == 35 {
                    MatchStep::Found(DirectiveRep::All { start: cs, end: e })
                } else if text[e] == 91 {
                    let be = find_byte_spec(text, e + 1, hi, 93);
                    if be < 0 {
                        MatchStep::Fail(ParseError::NoClosingBracket)
                    } else {
                        let cs1 = skip_ws_spec(text, e + 1, hi);
                        if cs1 >= be {
                            MatchStep::Fail(ParseError::MissingCodes)
                        } else {
                            match parse_codes_spec(text, cs1, be, hi, Seq::empty()) {
                                CodesStep::CFail(err) => MatchStep::Fail(err),
                                CodesStep::CDone(codes, endp) => if codes.len() == 0 {
                                    MatchStep::Fail(ParseError::MissingCodes)
                                } else {
                                    MatchStep::Found(
                                        DirectiveRep::Codes { start: cs, end: endp, codes },
                                    )
                                },
                            }
                        }
                    }
                } else if ws_len_at(text, e) > 0 {
                    let q = skip_ws_spec(text, e, hi);
                    if q != e && text[q] != 35 {
                        MatchStep::Fail(ParseError::InvalidSuffix)
                    } else {
                        MatchStep::Found(DirectiveRep::All { start: cs, end: e })
                    }
                } else {
                    MatchStep::Continue
                }
            }
        }
    }
}

/// Scan the comment text from `i`: the first position where a directive
/// matches decides the outcome.
pub open spec fn scan_from(text: Seq<u8>, lo: int, hi: int, i: int) -> DirectiveOutcome
    decreases nat_of(hi - i),
{
    if i >= hi {
        DirectiveOutcome::NotFound
    } else {
        match match_at(text, lo, hi, i) {
            MatchStep::Continue => scan_from(text, lo, hi, i + 1),
            MatchStep::Fail(e) => DirectiveOutcome::Fail(e),
            MatchStep::Found(d) => DirectiveOutcome::Found(d),
        }
    }
}

/// The directive parsed from the comment text `[lo, hi)`, if any.
pub open spec fn directive_outcome(text: Seq<u8>, lo: int, hi: int) -> DirectiveOutcome {
    scan_from(text, lo, hi, lo)
}

/// A blanket directive: suppress everything anchored to its line.
#[derive(Clone, Debug, PartialEq, Eq)]
pub struct All {
    pub range: TextRange,
}

/// A scoped directive: suppress only the listed codes on its line.
#[derive(Clone, Debug, PartialEq, Eq)]
pub struct Codes {
    pub range: TextRange,
    pub codes: Vec<Vec<u8>>,
}

impl Codes {
    /// The code byte strings listed by the directive.
    pub fn codes(&self) -> (r: &Vec<Vec<u8>>)
        ensures
            r == &self.codes,
    {
        &self.codes
    }

    pub fn range(&self) -> (r: TextRange)
        ensures
            r == self.range,
    {
        self.range
    }
}

impl All {
    pub fn range(&self) -> (r: TextRange)
        ensures
            r == self.range,
    {
        self.range
    }
}

/// A directive to ignore diagnostics on one line: either everything, or
/// the listed codes only.
#[derive(Clone, Debug, PartialEq, Eq)]
pub enum Directive {
    All(All),
    Codes(Codes),
}

/// The code byte strings of a `Codes` vector, as mathematical sequences.
pub open spec fn codes_view(codes: Seq<Vec<u8>>) -> Seq<Seq<u8>> {
    Seq::new(codes.len(), |i: int| codes[i]@)
}

impl View for Directive {
    type V = DirectiveRep;

    open spec fn view(&self) -> DirectiveRep {
        match self {
            Directive::All(a) => DirectiveRep::All {
                start: a.range.start as int,
                end: a.range.end as int,
            },
            Directive::Codes(c) => DirectiveRep::Codes {
                start: c.range.start as int,
                end: c.range.end as int,
                codes: codes_view(c.codes@),
            },
        }
    }
}

impl Directive {
    pub fn range(&self) -> (r: TextRange)
        ensures
            r == match self {
                Directive::All(a) => a.range,
                Directive::Codes(c) => c.range,
            },
    {
        match self {
            Directive::All(a) => a.range,
            Directive::Codes(c) => c.range,
        }
    }
}

/// When a closing bracket stands at `q`, the whitespace scan lands at or
/// before it: a bracket byte is no whitespace character and appears inside
/// none, so no whitespace character steps across it.
proof fn lemma_first_non_ws_bound(text: Seq<u8>, from: int, q: int, hi: int)
    requires
        0 <= from <= q < hi,
        text[q] == 93,
    ensures
        0 <= first_non_ws(text, from, hi) <= q,
    decreases q - from,
{
    if from < q {
        let l = ws_len_at(text, from);
        if l != 0 {
            // Every byte inside a multi-byte whitespace character is 128 or
            // more, so the bracket at `q` lies at or beyond the next start.
            assert(from + l <= q);
            lemma_first_non_ws_bound(text, from + l, q, hi);
        }
    }
}

/// The byte length of the whitespace character starting at `p`, or 0: the
/// executable form of [`ws_len_at`].
fn ws_len(text: &[u8], p: usize) -> (r: usize)
    requires
        p <= text@.len(),
    ensures
        r == ws_len_at(text@, p as int),
        r > 0 ==> p + r <= text@.len(),
{
    let n = text.len();
    if p >= n {
        return 0;
    }
    let b0 = text[p];
    if b0 == 32 || (9 <= b0 && b0 <= 13) {
        1
    } else if b0 == 194 && n - p >= 2 && (text[p + 1] == 133 || text[p + 1] == 160) {
        2
    } else if b0 == 225 && n - p >= 3 && text[p + 1] == 154 && text[p + 2] == 128 {
        3
    } else if b0 == 226 && n - p >= 3 && text[p + 1] == 128 && ((128 <= text[p + 2]
        && text[p + 2] <= 138) || text[p + 2] == 168 || text[p + 2] == 169 || text[p + 2]
        == 175) {
        3
    } else if b0 == 226 && n - p >= 3 && text[p + 1] == 129 && text[p + 2] == 159 {
        3
    } else if b0 == 227 && n - p >= 3 && text[p + 1] == 128 && text[p + 2] == 128 {
        3
    } else {
        0
    }
}

/// Scan whitespace: the executable form of [`skip_ws_spec`].
fn skip_ws(text: &[u8], from: usize, hi: usize) -> (r: usize)
    requires
        from <= hi <= text@.len(),
    ensures
        r == skip_ws_spec(text@, from as int, hi as int),
        from <= r <= hi,
        r != from ==> r < hi && ws_len_at(text@, r as int) == 0,
{
    let mut p = from;
    while p < hi
        invariant
            from <= p <= hi <= text@.len(),
            first_non_ws(text@, from as int, hi as int) == first_non_ws(
                text@,
                p as int,
                hi as int,
            ),
        decreases hi - p,
    {
        let l = ws_len(text, p);
        if l == 0 {
            return p;
        }
        if hi - p <= l {
            proof {
                assert(first_non_ws(text@, p as int, hi as int) == first_non_ws(
                    text@,
                    p + l,
                    hi as int,
                ));
            }
            return from;
        }
        p = p + l;
    }
    from
}

/// Find a byte: the executable form of [`find_byte_spec`].
fn find_byte(text: &[u8], from: usize, hi: usize, b: u8) -> (r: Option<usize>)
    requires
        from <= hi <= text@.len(),
    ensures
        match r {
            Some(p) => p == find_byte_spec(text@, from as int, hi as int, b) && from <= p
                < hi && text@[p as int] == b,
            None => find_byte_spec(text@, from as int, hi as int, b) == -1,
        },
{
    let mut p = from;
    while p < hi
        invariant
            from <= p <= hi <= text@.len(),
            forall|j: int| from <= j < p ==> text@[j] != b,
            find_byte_spec(text@, from as int, hi as int, b) == find_byte_spec(
                text@,
                p as int,
                hi as int,
                b,
            ),
        decreases hi - p,
    {
        if text[p] == b {
            return Some(p);
        }
        p = p + 1;
    }
    None
}

/// The byte length of the whitespace character ending just before `i`, or
/// 0: the executable form of [`ws_len_before`].
fn ws_len_ending(text: &[u8], i: usize) -> (r: usize)
    requires
        i <= text@.len(),
    ensures
        r == ws_len_before(text@, i as int),
        r <= i,
{
    if i >= 1 && ws_len(text, i - 1) == 1 {
        1
    } else if i >= 2 && ws_len(text, i - 2) == 2 {
        2
    } else if i >= 3 && ws_len(text, i - 3) == 3 {
        3
    } else {
        0
    }
}

/// Trim trailing whitespace: the executable form of [`trim_end_spec`].
fn trim_end(text: &[u8], lo: usize, i: usize) -> (r: usize)
    requires
        lo <= i <= text@.len(),
    ensures
        r == trim_end_spec(text@, lo as int, i as int),
        lo <= r <= i,
{
    let mut p = i;
    loop
        invariant
            lo <= p <= i <= text@.len(),
            trim_end_spec(text@, lo as int, i as int) == trim_end_spec(
                text@,
                lo as int,
                p as int,
            ),
        decreases p,
    {
        if p <= lo {
            return p;
        }
        let l = ws_len_ending(text, p);
        if l == 0 || p - l < lo {
            return p;
        }
        p = p - l;
    }
}

/// Find the end of a code token: the executable form of [`code_end_spec`].
fn code_end_in(text: &[u8], from: usize, hi: usize) -> (r: usize)
    requires
        from <= hi <= text@.len(),
    ensures
        r == code_end_spec(text@, from as int, hi as int),
        from <= r <= hi,
{
    let mut p = from;
    while p < hi
        invariant
            from <= p <= hi <= text@.len(),
            code_end_spec(text@, from as int, hi as int) == code_end_spec(
                text@,
                p as int,
                hi as int,
            ),
        decreases hi - p,
    {
        if text[p] == 44 || ws_len(text, p) > 0 {
            return p;
        }
        p = p + 1;
    }
    hi
}

/// Copy the bytes `[a, b)` of `text` into an owned vector.
fn copy_range(text: &[u8], a: usize, b: usize) -> (r: Vec<u8>)
    requires
        a <= b <= text@.len(),
    ensures
        r@ == text@.subrange(a as int, b as int),
{
    let mut out: Vec<u8> = Vec::new();
    let mut p = a;
    while p < b
        invariant
            a <= p <= b <= text@.len(),
            out@ == text@.subrange(a as int, p as int),
        decreases b - p,
    {
        out.push(text[p]);
        proof {
            assert(out@ =~= text@.subrange(a as int, p + 1));
        }
        p = p + 1;
    }
    out
}

impl Directive {
    /// Extract the suppression directive from the comment text `[lo, hi)`
    /// of the source, if one is present. The returned outcome is exactly
    /// [`directive_outcome`] of those bytes.
    #[verifier::loop_isolation(false)]
    pub fn try_extract(text: &[u8], lo: usize, hi: usize) -> (r: Result<
        Option<Directive>,
        ParseError,
    >)
        requires
            lo <= hi <= text@.len(),
        ensures
            ({
                let o = directive_outcome(text@, lo as int, hi as int);
                match r {
                    Ok(None) => o == DirectiveOutcome::NotFound,
                    Ok(Some(d)) => o == DirectiveOutcome::Found(d@),
                    Err(e) => o == DirectiveOutcome::Fail(e),
                }
            }),
    {
        let ghost t = text@;
        let mut i = lo;
        while i < hi
            invariant
                lo <= i <= hi <= text@.len(),
                t == text@,
                scan_from(t, lo as int, hi as int, lo as int) == scan_from(
                    t,
                    lo as int,
                    hi as int,
                    i as int,
                ),
            decreases hi - i,
        {
            let b0 = text[i];
            if !(b0 == 116 || b0 == 84) {
                i = i + 1;
                continue;
            }
            let istype = hi - i >= 5 && (text[i + 1] == 121 || text[i + 1] == 89) && (text[i
                + 2] == 112 || text[i + 2] == 80) && (text[i + 3] == 101 || text[i + 3]
                == 69) && text[i + 4] == 58;
            if !istype {
                i = i + 1;
                continue;
            }
            let ig = skip_ws(text, i + 5, hi);
            let isign = hi - ig >= 6 && (text[ig] == 105 || text[ig] == 73) && (text[ig + 1]
                == 103 || text[ig + 1] == 71) && (text[ig + 2] == 110 || text[ig + 2] == 78)
                && (text[ig + 3] == 111 || text[ig + 3] == 79) && (text[ig + 4] == 114
                || text[ig + 4] == 82) && (text[ig + 5] == 101 || text[ig + 5] == 69);
            if !isign {
                i = i + 1;
                continue;
            }
            let j = trim_end(text, lo, i);
            if j == lo || text[j - 1] != 35 {
                i = i + 1;
                continue;
            }
            let cs = j - 1;
            let e = ig + 6;
            if e >= hi || text[e] == 35 {
                let d = Directive::All(All { range: TextRange::new(cs, e) });
                proof {
                    assert(match_at(t, lo as int, hi as int, i as int) == MatchStep::Found(
                        d@,
                    ));
                }
                return Ok(Some(d));
            }
            if text[e] == 91 {
                let be = match find_byte(text, e + 1, hi, 93) {
                    None => {
                        proof {
                            assert(match_at(t, lo as int, hi as int, i as int)
                                == MatchStep::Fail(ParseError::NoClosingBracket));
                        }
                        return Err(ParseError::NoClosingBracket);
                    },
                    Some(p) => p,
                };
                let cs1 = skip_ws(text, e + 1, hi);
                if cs1 >= be {
                    proof {
                        assert(match_at(t, lo as int, hi as int, i as int)
                            == MatchStep::Fail(ParseError::MissingCodes));
                    }
                    return Err(ParseError::MissingCodes);
                }
                let mut codes: Vec<Vec<u8>> = Vec::new();
                let mut pos = cs1;
                proof {
                    assert(codes_view(codes@) =~= Seq::<Seq<u8>>::empty());
                }
                loop
                    invariant
                        lo <= i < hi <= text@.len(),
                        t == text@,
                        e + 1 <= cs1 <= pos <= be + 1,
                        be < hi,
                        t[be as int] == 93,
                        parse_codes_spec(t, cs1 as int, be as int, hi as int, Seq::empty())
                            == parse_codes_spec(
                            t,
                            pos as int,
                            be as int,
                            hi as int,
                            codes_view(codes@),
                        ),
                    decreases be + 1 - pos,
                {
                    if pos >= be {
                        proof {
                            assert(parse_codes_spec(
                                t,
                                cs1 as int,
                                be as int,
                                hi as int,
                                Seq::empty(),
                            ) == CodesStep::CDone(codes_view(codes@), pos as int));
                        }
                        if codes.len() == 0 {
                            proof {
                                assert(codes_view(codes@).len() == 0);
                                assert(match_at(t, lo as int, hi as int, i as int)
                                    == MatchStep::Fail(ParseError::MissingCodes));
                            }
                            return Err(ParseError::MissingCodes);
                        }
                        let d = Directive::Codes(
                            Codes { range: TextRange::new(cs, pos), codes },
                        );
                        proof {
                            assert(codes_view(codes@).len() > 0);
                            assert(match_at(t, lo as int, hi as int, i as int)
                                == MatchStep::Found(d@));
                        }
                        return Ok(Some(d));
                    }
                    let ce = code_end_in(text, pos, be);
                    let code = copy_range(text, pos, ce);
                    let ghost old_codes = codes@;
                    codes.push(code);
                    proof {
                        assert(codes_view(codes@) =~= codes_view(old_codes).push(
                            t.subrange(pos as int, ce as int),
                        ));
                    }
                    let p2 = skip_ws(text, ce, hi);
                    proof {
                        lemma_first_non_ws_bound(t, ce as int, be as int, hi as int);
                    }
                    if p2 >= be {
                        proof {
                            assert(parse_codes_spec(
                                t,
                                cs1 as int,
                                be as int,
                                hi as int,
                                Seq::empty(),
                            ) == CodesStep::CDone(codes_view(codes@), p2 as int));
                        }
                        let d = Directive::Codes(
                            Codes { range: TextRange::new(cs, p2), codes },
                        );
                        proof {
                            assert(codes_view(codes@).len() > 0);
                            assert(match_at(t, lo as int, hi as int, i as int)
                                == MatchStep::Found(d@));
                        }
                        return Ok(Some(d));
                    }
                    if text[p2] != 44 {
                        proof {
                            assert(match_at(t, lo as int, hi as int, i as int)
                                == MatchStep::Fail(ParseError::MissingComma));
                        }
                        return Err(ParseError::MissingComma);
                    }
                    let p3 = skip_ws(text, p2 + 1, hi);
                    proof {
                        lemma_first_non_ws_bound(t, p2 + 1 as int, be as int, hi as int);
                    }
                    pos = p3;
                }
            }
            if ws_len(text, e) > 0 {
                let q = skip_ws(text, e, hi);
                if q != e && text[q] != 35 {
                    proof {
                        assert(match_at(t, lo as int, hi as int, i as int)
                            == MatchStep::Fail(ParseError::InvalidSuffix));
                    }
                    return Err(ParseError::InvalidSuffix);
                }
                let d = Directive::All(All { range: TextRange::new(cs, e) });
                proof {
                    assert(match_at(t, lo as int, hi as int, i as int) == MatchStep::Found(
                        d@,
                    ));
                }
                return Ok(Some(d));
            }
            i = i + 1;
        }
        Ok(None)
    }
}

} // verus!

verus! {

// ---------------------------------------------------------------------------
// Directive lines and file-level exemptions.
// ---------------------------------------------------------------------------

/// Returns `true` if the byte-string list `haystack` includes the display
/// form of `needle`.
pub open spec fn includes_spec(needle: ErrorCode, haystack: Seq<Seq<u8>>) -> bool {
    exists|j: int| 0 <= j < haystack.len() && haystack[j] == code_bytes(needle)
}

/// Returns `true` if the string list of `codes` includes `code`.
pub fn includes(needle: ErrorCode, haystack: &Vec<Vec<u8>>) -> (r: bool)
    ensures
        r == includes_spec(needle, codes_view(haystack@)),
{
    let needle_bytes = needle.to_code_bytes();
    let mut j: usize = 0;
    while j < haystack.len()
        invariant
            j <= haystack@.len(),
            needle_bytes@ == code_bytes(needle),
            forall|k: int| 0 <= k < j ==> codes_view(haystack@)[k] != code_bytes(needle),
        decreases haystack@.len() - j,
    {
        if crate::registry::bytes_equal(haystack[j].as_slice(), needle_bytes.as_slice()) {
            assert(codes_view(haystack@)[j as int] == code_bytes(needle));
            return true;
        }
        j += 1;
    }
    false
}

/// The mathematical form of one directive line: the line's range, its
/// directive, and the codes it has suppressed so far.
pub struct LineRep {
    pub range_start: int,
    pub range_end: int,
    pub directive: DirectiveRep,
    pub matches: Seq<ErrorCode>,
}

/// One line of the file over which a suppression directive has effect.
#[derive(Clone, Debug)]
pub struct TypeIgnoreLine {
    /// The range of the text line for which the directive applies.
    pub range: TextRange,
    /// The directive itself.
    pub directive: Directive,
    /// The codes of the diagnostics this directive has suppressed.
    pub matches: Vec<ErrorCode>,
}

impl View for TypeIgnoreLine {
    type V = LineRep;

    open spec fn view(&self) -> LineRep {
        LineRep {
            range_start: self.range.start as int,
            range_end: self.range.end as int,
            directive: self.directive@,
            matches: self.matches@,
        }
    }
}

/// The directive lines built from the comment ranges `ranges`, in order:
/// one line per comment whose text parses as a directive.
pub open spec fn lines_of(text: Seq<u8>, ranges: Seq<TextRange>) -> Seq<LineRep>
    decreases ranges.len(),
{
    if ranges.len() == 0 {
        Seq::empty()
    } else {
        let prev = lines_of(text, ranges.drop_last());
        let r = ranges.last();
        match directive_outcome(text, r.start as int, r.end as int) {
            DirectiveOutcome::Found(d) => prev.push(
                LineRep {
                    range_start: line_start_of(text, r.start as int),
                    range_end: line_end_of(text, r.start as int),
                    directive: d,
                    matches: Seq::empty(),
                },
            ),
            _ => prev,
        }
    }
}

/// The same lines with the last one widened by one byte when it reaches the
/// end of the file, so that anchors resolved to the file end still hit it.
pub open spec fn eof_extended(lines: Seq<LineRep>, text_len: int) -> Seq<LineRep> {
    if lines.len() > 0 && lines.last().range_end == text_len {
        lines.update(
            lines.len() - 1,
            LineRep {
                range_start: lines.last().range_start,
                range_end: text_len + 1,
                directive: lines.last().directive,
                matches: lines.last().matches,
            },
        )
    } else {
        lines
    }
}

/// Comment ranges are usable for directive extraction when each is a
/// non-empty in-bounds range and each comment's line ends before the next
/// comment starts (comments sit on distinct lines, in ascending order).
pub open spec fn comment_ranges_wf(text: Seq<u8>, ranges: Seq<TextRange>) -> bool {
    &&& forall|i: int|
        0 <= i < ranges.len() ==> (#[trigger] ranges[i]).start < ranges[i].end <= text.len()
    &&& forall|i: int, j: int|
        0 <= i < j < ranges.len() ==> line_end_of(text, ranges[i].start as int) < ranges[j].start
}

/// `line_start_of` lands at or after every line-start candidate before the
/// offset.
pub proof fn lemma_line_start_ge(text: Seq<u8>, offset: int, p: int)
    requires
        0 <= p <= offset <= text.len(),
        p == 0 || text[p - 1] == crate::locator::NEWLINE,
    ensures
        crate::locator::line_start_of(text, offset) >= p,
{
    crate::locator::lemma_line_start_of_props(text, offset);
    let ls = crate::locator::line_start_of(text, offset);
    if p > ls {
        assert(ls <= p - 1 < offset);
        assert(text[p - 1] != crate::locator::NEWLINE);
    }
}

/// All parsed suppression directives of one file, each anchored to its
/// physical line, in ascending line order.
#[derive(Clone, Debug)]
pub struct TypeIgnores {
    inner: Vec<TypeIgnoreLine>,
}

impl View for TypeIgnores {
    type V = Seq<LineRep>;

    closed spec fn view(&self) -> Seq<LineRep> {
        Seq::new(self.inner@.len(), |i: int| self.inner@[i]@)
    }
}

/// Lines are ordered and well-formed: each line's range ends before the
/// next begins.
pub open spec fn lines_wf(lines: Seq<LineRep>) -> bool {
    &&& forall|i: int|
        0 <= i < lines.len() ==> (#[trigger] lines[i]).range_start <= lines[i].range_end
    &&& forall|i: int, j: int|
        0 <= i < j < lines.len() ==> lines[i].range_end < lines[j].range_start
}

/// Whether the directive line `l` governs `offset`: its line range contains
/// the offset (end exclusive).
pub open spec fn line_governs(l: LineRep, offset: int) -> bool {
    l.range_start <= offset < l.range_end
}

/// The index of the directive line governing `offset`, or -1 if none.
pub open spec fn line_index_of(lines: Seq<LineRep>, offset: int) -> int {
    if exists|k: int| 0 <= k < lines.len() && line_governs(#[trigger] lines[k], offset) {
        choose|k: int| 0 <= k < lines.len() && line_governs(#[trigger] lines[k], offset)
    } else {
        -1
    }
}

pub proof fn lemma_line_index_unique(lines: Seq<LineRep>, offset: int, i: int, j: int)
    requires
        lines_wf(lines),
        0 <= i < lines.len(),
        0 <= j < lines.len(),
        line_governs(lines[i], offset),
        line_governs(lines[j], offset),
    ensures
        i == j,
{
}

impl TypeIgnores {
    pub open spec fn wf(self) -> bool {
        lines_wf(self@)
    }

    /// Extract every suppression directive from the comment ranges of one
    /// file. Comments whose text holds no directive, or a malformed one,
    /// contribute no line.
    #[verifier::loop_isolation(false)]
    pub fn from_commented_ranges(comment_ranges: &Vec<TextRange>, locator: &Locator) -> (r:
        Self)
        requires
            comment_ranges_wf(locator@, comment_ranges@),
            locator@.len() < usize::MAX,
        ensures
            r@ == eof_extended(lines_of(locator@, comment_ranges@), locator@.len() as int),
            r.wf(),
    {
        let ghost text = locator@;
        let mut inner: Vec<TypeIgnoreLine> = Vec::new();
        let mut i: usize = 0;
        proof {
            assert(Seq::new(inner@.len(), |k: int| inner@[k]@) =~= Seq::<LineRep>::empty());
            assert(comment_ranges@.take(0) =~= Seq::<TextRange>::empty());
        }
        while i < comment_ranges.len()
            invariant
                i <= comment_ranges@.len(),
                Seq::new(inner@.len(), |k: int| inner@[k]@) == lines_of(
                    text,
                    comment_ranges@.take(i as int),
                ),
                lines_wf(Seq::new(inner@.len(), |k: int| inner@[k]@)),
                inner@.len() > 0 ==> (inner@.last()@.range_end == text.len()
                    || text[inner@.last()@.range_end] == crate::locator::NEWLINE),
                inner@.len() > 0 ==> forall|j: int|
                    i <= j < comment_ranges@.len() ==> inner@.last()@.range_end < (
                    #[trigger] comment_ranges@[j]).start,
            decreases comment_ranges@.len() - i,
        {
            let ghost prefix = comment_ranges@.take(i as int);
            let ghost lines_before = Seq::new(inner@.len(), |k: int| inner@[k]@);
            let range = comment_ranges[i];
            let contents = locator.contents();
            match Directive::try_extract(contents.as_slice(), range.start, range.end) {
                Ok(Some(directive)) => {
                    let line_range = locator.line_range(range.start);
                    proof {
                        crate::locator::lemma_line_end_of_props(text, range.start as int);
                        crate::locator::lemma_line_start_of_props(text, range.start as int);
                        if inner@.len() > 0 {
                            // The previous line ends at a line feed before
                            // this comment, so this line starts after it.
                            lemma_line_start_ge(
                                text,
                                range.start as int,
                                lines_before.last().range_end + 1,
                            );
                        }
                    }
                    let line = TypeIgnoreLine {
                        range: line_range,
                        directive,
                        matches: Vec::new(),
                    };
                    inner.push(line);
                },
                _ => {},
            }
            proof {
                let next = comment_ranges@.take(i + 1);
                assert(next.drop_last() =~= prefix);
                assert(next.last() == comment_ranges@[i as int]);
                assert(Seq::new(inner@.len(), |k: int| inner@[k]@) =~= lines_of(text, next));
            }
            i += 1;
        }
        proof {
            assert(comment_ranges@.take(i as int) =~= comment_ranges@);
        }
        // Extend a mapping at the end of the file to also include the end-
        // of-file position.
        let n = inner.len();
        if n > 0 {
            let end = inner[n - 1].range.end;
            if end == locator.len() {
                let start = inner[n - 1].range.start;
                proof {
                    let lines = Seq::new(inner@.len(), |k: int| inner@[k]@);
                    assert(lines[n - 1] == inner@[n - 1]@);
                    assert(lines[n - 1].range_start <= lines[n - 1].range_end);
                }
                inner[n - 1].range = TextRange::new(start, end + 1);
            }
        }
        let r = TypeIgnores { inner };
        proof {
            assert(r@ =~= eof_extended(lines_of(text, comment_ranges@), text.len() as int));
        }
        r
    }

    pub fn lines(&self) -> (r: &Vec<TypeIgnoreLine>)
        ensures
            r@.len() == self@.len(),
            forall|k: int| 0 <= k < r@.len() ==> (#[trigger] r@[k])@ == self@[k],
    {
        &self.inner
    }

    /// The index of the directive line whose range contains `offset`.
    pub fn find_line_index(&self, offset: usize) -> (r: Option<usize>)
        requires
            self.wf(),
        ensures
            match r {
                Some(ix) => ix < self@.len() && line_governs(self@[ix as int], offset as int)
                    && line_index_of(self@, offset as int) == ix as int,
                None => line_index_of(self@, offset as int) == -1,
            },
    {
        let mut lo: usize = 0;
        let mut hi: usize = self.inner.len();
        while lo < hi
            invariant
                lo <= hi <= self@.len(),
                forall|k: int| 0 <= k < lo ==> (#[trigger] self@[k]).range_end <= offset,
                forall|k: int|
                    hi <= k < self@.len() ==> offset < (#[trigger] self@[k]).range_start,
                self.wf(),
            decreases hi - lo,
        {
            let mid = lo + (hi - lo) / 2;
            let range = self.inner[mid].range;
            proof {
                assert(self@[mid as int].range_start == range.start);
            }
            if range.end <= offset {
                lo = mid + 1;
            } else if range.start <= offset {
                proof {
                    assert(line_governs(self@[mid as int], offset as int));
                    if line_index_of(self@, offset as int) != mid as int {
                        lemma_line_index_unique(
                            self@,
                            offset as int,
                            mid as int,
                            line_index_of(self@, offset as int),
                        );
                    }
                }
                return Some(mid);
            } else {
                hi = mid;
            }
        }
        proof {
            assert forall|k: int|
                0 <= k < self@.len() implies !line_governs(#[trigger] self@[k], offset as int)
            by {}
        }
        None
    }

    /// The directive line governing `offset`, if any.
    pub fn find_line_with_directive(&self, offset: usize) -> (r: Option<&TypeIgnoreLine>)
        requires
            self.wf(),
        ensures
            match r {
                Some(l) => line_index_of(self@, offset as int) >= 0 && l@ == self@[
                    line_index_of(self@, offset as int)
                ],
                None => line_index_of(self@, offset as int) == -1,
            },
    {
        match self.find_line_index(offset) {
            Some(ix) => Some(&self.inner[ix]),
            None => None,
        }
    }

    /// Whether the directive on line `ix` suppresses diagnostics with
    /// `code`: a blanket directive suppresses everything, a scoped one only
    /// its listed codes.
    pub fn line_suppresses(&self, ix: usize, code: ErrorCode) -> (r: bool)
        requires
            ix < self@.len(),
        ensures
            r == match self@[ix as int].directive {
                DirectiveRep::All { .. } => true,
                DirectiveRep::Codes { codes, .. } => includes_spec(code, codes),
            },
    {
        match &self.inner[ix].directive {
            Directive::All(_) => true,
            Directive::Codes(c) => includes(code, &c.codes),
        }
    }

    /// Record that the directive line at `ix` suppressed a diagnostic with
    /// code `code`.
    pub fn record_match(&mut self, ix: usize, code: ErrorCode)
        requires
            ix < old(self)@.len(),
        ensures
            final(self)@ == old(self)@.update(
                ix as int,
                LineRep {
                    range_start: old(self)@[ix as int].range_start,
                    range_end: old(self)@[ix as int].range_end,
                    directive: old(self)@[ix as int].directive,
                    matches: old(self)@[ix as int].matches.push(code),
                },
            ),
    {
        self.inner[ix].matches.push(code);
        proof {
            assert(final(self)@ =~= old(self)@.update(
                ix as int,
                LineRep {
                    range_start: old(self)@[ix as int].range_start,
                    range_end: old(self)@[ix as int].range_end,
                    directive: old(self)@[ix as int].directive,
                    matches: old(self)@[ix as int].matches.push(code),
                },
            ));
        }
    }
}

} // verus!

verus! {

/// Whether some code of the registry has `s` as its display form.
pub open spec fn known_code(s: Seq<u8>) -> bool {
    exists|c: ErrorCode| code_bytes(c) == s
}

/// The codes of `codes` that name known codes of the registry, in order.
pub open spec fn known_of(codes: Seq<Seq<u8>>) -> Seq<Seq<u8>>
    decreases codes.len(),
{
    if codes.len() == 0 {
        Seq::empty()
    } else {
        known_of(codes.drop_last()) + if known_code(codes.last()) {
            seq![codes.last()]
        } else {
            Seq::empty()
        }
    }
}

/// A comment is eligible as a file-level exemption only when nothing but
/// whitespace characters stand before it on its line.
pub open spec fn own_line_spec(text: Seq<u8>, r: TextRange) -> bool {
    first_non_ws(text, line_start_of(text, r.start as int), r.start as int) == -1
}

/// The file-level exemption state accumulated over the comments so far:
/// every code exempted, or everything.
pub enum ExemptState {
    All,
    Codes(Seq<Seq<u8>>),
}

/// The exemption state after reading the comments of `ranges` in order. A
/// blanket own-line directive exempts the whole file; scoped own-line
/// directives accumulate their known codes.
pub open spec fn exempt_state(text: Seq<u8>, ranges: Seq<TextRange>) -> ExemptState
    decreases ranges.len(),
{
    if ranges.len() == 0 {
        ExemptState::Codes(Seq::empty())
    } else {
        match exempt_state(text, ranges.drop_last()) {
            ExemptState::All => ExemptState::All,
            ExemptState::Codes(acc) => {
                let r = ranges.last();
                if !own_line_spec(text, r) {
                    ExemptState::Codes(acc)
                } else {
                    match directive_outcome(text, r.start as int, r.end as int) {
                        DirectiveOutcome::Found(DirectiveRep::All { .. }) => ExemptState::All,
                        DirectiveOutcome::Found(DirectiveRep::Codes { codes, .. }) =>
                            ExemptState::Codes(acc + known_of(codes)),
                        _ => ExemptState::Codes(acc),
                    }
                }
            },
        }
    }
}

/// Once the exemption state of a prefix is `All`, reading more comments
/// keeps it `All`.
proof fn lemma_exempt_all_absorbs(text: Seq<u8>, ranges: Seq<TextRange>, k: int)
    requires
        0 <= k <= ranges.len(),
        exempt_state(text, ranges.take(k)) == ExemptState::All,
    ensures
        exempt_state(text, ranges) == ExemptState::All,
    decreases ranges.len() - k,
{
    if k < ranges.len() {
        assert(ranges.take(k + 1).drop_last() =~= ranges.take(k));
        lemma_exempt_all_absorbs(text, ranges, k + 1);
    } else {
        assert(ranges.take(k) =~= ranges);
    }
}

/// The file-level exemptions extracted from one file.
#[derive(Clone, Debug, PartialEq, Eq)]
pub enum FileExemption {
    /// The file is exempt from all rules.
    All,
    /// The file is exempt from the given rules.
    Codes(Vec<Vec<u8>>),
}

/// Whether only whitespace characters stand in `[a, b)`.
fn all_ws_between(text: &[u8], a: usize, b: usize) -> (r: bool)
    requires
        a <= b <= text@.len(),
    ensures
        r == (first_non_ws(text@, a as int, b as int) == -1),
{
    let mut p = a;
    while p < b
        invariant
            a <= p <= b <= text@.len(),
            first_non_ws(text@, a as int, b as int) == first_non_ws(
                text@,
                p as int,
                b as int,
            ),
        decreases b - p,
    {
        let l = ws_len(text, p);
        if l == 0 {
            return false;
        }
        if b - p <= l {
            proof {
                assert(first_non_ws(text@, p as int, b as int) == first_non_ws(
                    text@,
                    p + l,
                    b as int,
                ));
            }
            return true;
        }
        p = p + l;
    }
    true
}

impl FileExemption {
    /// Extract the file-level exemption of one file: the aggregate of every
    /// own-line suppression comment, short-circuiting on a blanket one.
    /// Comments that are not alone on their line, malformed directives and
    /// unknown codes contribute nothing.
    #[verifier::loop_isolation(false)]
    pub fn try_extract(comment_ranges: &Vec<TextRange>, locator: &Locator) -> (r: Option<
        FileExemption,
    >)
        requires
            forall|i: int|
                0 <= i < comment_ranges@.len() ==> (#[trigger] comment_ranges@[i]).start
                    <= comment_ranges@[i].end <= locator@.len(),
        ensures
            match r {
                Some(FileExemption::All) => exempt_state(locator@, comment_ranges@)
                    == ExemptState::All,
                Some(FileExemption::Codes(v)) => exempt_state(locator@, comment_ranges@)
                    == ExemptState::Codes(codes_view(v@)) && v@.len() > 0,
                None => exempt_state(locator@, comment_ranges@) == ExemptState::Codes(
                    Seq::empty(),
                ),
            },
    {
        let ghost text = locator@;
        let mut exempt_codes: Vec<Vec<u8>> = Vec::new();
        let mut i: usize = 0;
        proof {
            assert(comment_ranges@.take(0) =~= Seq::<TextRange>::empty());
            assert(codes_view(exempt_codes@) =~= Seq::<Seq<u8>>::empty());
        }
        while i < comment_ranges.len()
            invariant
                i <= comment_ranges@.len(),
                exempt_state(text, comment_ranges@.take(i as int)) == ExemptState::Codes(
                    codes_view(exempt_codes@),
                ),
            decreases comment_ranges@.len() - i,
        {
            let ghost prefix = comment_ranges@.take(i as int);
            let range = comment_ranges[i];
            let contents = locator.contents();
            let ls = locator.line_start(range.start);
            if all_ws_between(contents.as_slice(), ls, range.start) {
                match Directive::try_extract(contents.as_slice(), range.start, range.end) {
                    Ok(Some(Directive::All(_))) => {
                        proof {
                            assert(comment_ranges@.take(i + 1).drop_last() =~= prefix);
                            assert(exempt_state(text, comment_ranges@.take(i + 1))
                                == ExemptState::All);
                            lemma_exempt_all_absorbs(text, comment_ranges@, i + 1);
                        }
                        return Some(FileExemption::All);
                    },
                    Ok(Some(Directive::Codes(codes_directive))) => {
                        let ghost listed = codes_view(codes_directive.codes@);
                        let ghost before = codes_view(exempt_codes@);
                        let n = codes_directive.codes.len();
                        let mut j: usize = 0;
                        proof {
                            assert(listed.take(0) =~= Seq::<Seq<u8>>::empty());
                            assert(known_of(listed.take(0)) =~= Seq::<Seq<u8>>::empty());
                            assert(codes_view(exempt_codes@) =~= before + known_of(
                                listed.take(0),
                            ));
                        }
                        while j < n
                            invariant
                                j <= n == codes_directive.codes@.len(),
                                listed == codes_view(codes_directive.codes@),
                                codes_view(exempt_codes@) == before + known_of(
                                    listed.take(j as int),
                                ),
                            decreases n - j,
                        {
                            let code = &codes_directive.codes[j];
                            let ghost old_view = codes_view(exempt_codes@);
                            match crate::registry::ErrorCode::from_code_bytes(
                                code.as_slice(),
                            ) {
                                Ok(_) => {
                                    exempt_codes.push(clone_bytes_of(code));
                                    proof {
                                        assert(known_code(listed[j as int]));
                                        assert(codes_view(exempt_codes@) =~= old_view
                                            + seq![listed[j as int]]);
                                    }
                                },
                                Err(_) => {
                                    proof {
                                        assert(!known_code(listed[j as int]));
                                    }
                                },
                            }
                            proof {
                                assert(listed.take(j + 1).drop_last() =~= listed.take(
                                    j as int,
                                ));
                                assert(listed.take(j + 1).last() == listed[j as int]);
                            }
                            j += 1;
                        }
                        proof {
                            assert(listed.take(n as int) =~= listed);
                            assert(comment_ranges@.take(i + 1).drop_last() =~= prefix);
                            assert(exempt_state(text, comment_ranges@.take(i + 1))
                                == ExemptState::Codes(codes_view(exempt_codes@)));
                        }
                    },
                    _ => {
                        proof {
                            assert(comment_ranges@.take(i + 1).drop_last() =~= prefix);
                        }
                    },
                }
            } else {
                proof {
                    assert(!own_line_spec(text, comment_ranges@[i as int]));
                    assert(comment_ranges@.take(i + 1).drop_last() =~= prefix);
                }
            }
            i += 1;
        }
        proof {
            assert(comment_ranges@.take(i as int) =~= comment_ranges@);
        }
        if exempt_codes.len() == 0 {
            proof {
                assert(codes_view(exempt_codes@) =~= Seq::<Seq<u8>>::empty());
            }
            None
        } else {
            Some(FileExemption::Codes(exempt_codes))
        }
    }

    /// Whether the exemption covers `code`.
    pub fn covers(&self, code: ErrorCode) -> (r: bool)
        ensures
            r == match self {
                FileExemption::All => true,
                FileExemption::Codes(v) => includes_spec(code, codes_view(v@)),
            },
    {
        match self {
            FileExemption::All => true,
            FileExemption::Codes(v) => includes(code, v),
        }
    }
}

/// Copy one code byte string.
pub fn clone_bytes_of(v: &Vec<u8>) -> (r: Vec<u8>)
    ensures
        r@ == v@,
{
    let mut out: Vec<u8> = Vec::new();
    let mut p: usize = 0;
    while p < v.len()
        invariant
            p <= v@.len(),
            out@ == v@.take(p as int),
        decreases v@.len() - p,
    {
        out.push(v[p]);
        proof {
            assert(out@ =~= v@.take(p + 1));
        }
        p = p + 1;
    }
    proof {
        assert(v@.take(p as int) =~= v@);
    }
    out
}

/// Returns `true` if the given code is ignored at the line governing the
/// remapped `offset`.
pub fn rule_is_ignored(
    code: ErrorCode,
    offset: usize,
    noqa_line_for: &TypeIgnoreMapping,
    locator: &Locator,
) -> (r: bool)
    requires
        noqa_line_for.wf(),
        offset <= locator@.len(),
        forall|i: int|
            0 <= i < noqa_line_for@.len() ==> (#[trigger] noqa_line_for@[i]).end
                <= locator@.len(),
    ensures
        ({
            let off = resolve_spec(noqa_line_for@, offset as int);
            let ls = line_start_of(locator@, off);
            let le = line_end_of(locator@, off);
            r == match directive_outcome(locator@, ls, le) {
                DirectiveOutcome::Found(DirectiveRep::All { .. }) => true,
                DirectiveOutcome::Found(DirectiveRep::Codes { codes, .. }) => includes_spec(
                    code,
                    codes,
                ),
                _ => false,
            }
        }),
{
    let off = noqa_line_for.resolve(offset);
    proof {
        if exists|k: int|
            0 <= k < noqa_line_for@.len() && #[trigger] noqa_line_for@[k].spec_contains(
                offset as int,
            ) {
            let k = choose|k: int|
                0 <= k < noqa_line_for@.len() && #[trigger] noqa_line_for@[k].spec_contains(
                    offset as int,
                );
            assert(off == noqa_line_for@[k].end);
        }
        assert(off <= locator@.len());
        crate::locator::lemma_line_start_of_props(locator@, off as int);
        crate::locator::lemma_line_end_of_props(locator@, off as int);
    }
    let line_range = locator.line_range(off);
    let contents = locator.contents();
    match Directive::try_extract(contents.as_slice(), line_range.start, line_range.end) {
        Ok(Some(Directive::All(_))) => true,
        Ok(Some(Directive::Codes(c))) => includes(code, &c.codes),
        _ => false,
    }
}

} // verus!
