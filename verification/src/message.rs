//! The user-facing projection of a diagnostic: resolved to a source file,
//! a severity, and the anchor offset used for suppression reporting.

use vstd::prelude::*;
use vstd::string::StringSliceAdditionalSpecFns;
use vstd::utf8::{encode_utf8, encode_utf8_decode_utf8};
use crate::code_table::MessageKind;
use crate::locator::{count_newlines, line_start_of, Locator, SourceLocation};
use crate::registry::{Diagnostic, DiagnosticKind};
use crate::text_range::TextRange;

verus! {

/// One checked file: its name and its text, line-indexed.
#[derive(Clone, Debug)]
pub struct SourceFile {
    pub name: String,
    pub contents: Locator,
}

impl SourceFile {
    pub fn new(name: String, contents: Locator) -> (r: Self)
        ensures
            r.name@ == name@,
            r.contents@ == contents@,
    {
        SourceFile { name, contents }
    }

    pub fn name(&self) -> (r: &str)
        ensures
            r@ == self.name@,
    {
        self.name.as_str()
    }

    /// An owned copy of this file handle.
    pub fn duplicate(&self) -> (r: Self)
        ensures
            r.name@ == self.name@,
            r.contents@ == self.contents@,
    {
        let name = self.name.clone();
        let contents = Locator::new(crate::type_ignore::clone_bytes_of(
            self.contents.contents(),
        ));
        SourceFile { name, contents }
    }
}

/// The user-facing form of one diagnostic.
#[derive(Clone, Debug)]
pub struct Message {
    pub diagnostic: DiagnosticKind,
    pub range: TextRange,
    pub file: SourceFile,
    pub ignore_offset: usize,
    pub kind: MessageKind,
}

impl Message {
    /// Build the message for one surviving diagnostic.
    pub fn from_diagnostic(
        diagnostic: Diagnostic,
        file: SourceFile,
        ignore_offset: usize,
        kind: MessageKind,
    ) -> (r: Message)
        ensures
            r.diagnostic == diagnostic.kind,
            r.range == diagnostic.range,
            r.file == file,
            r.ignore_offset == ignore_offset,
            r.kind == kind,
    {
        Message { range: diagnostic.range, diagnostic: diagnostic.kind, file, ignore_offset, kind }
    }

    pub fn filename(&self) -> (r: &str)
        ensures
            r@ == self.file.name@,
    {
        self.file.name()
    }

    /// The 1-indexed row and byte column of the start of the range.
    pub fn compute_start_location(&self) -> (r: SourceLocation)
        requires
            self.range.start <= self.file.contents@.len() < usize::MAX,
        ensures
            r.row == count_newlines(self.file.contents@, self.range.start as int) + 1,
            r.column == self.range.start - line_start_of(
                self.file.contents@,
                self.range.start as int,
            ) + 1,
    {
        self.file.contents.source_location(self.range.start)
    }

    /// The 1-indexed row and byte column of the end of the range.
    pub fn compute_end_location(&self) -> (r: SourceLocation)
        requires
            self.range.end <= self.file.contents@.len() < usize::MAX,
        ensures
            r.row == count_newlines(self.file.contents@, self.range.end as int) + 1,
            r.column == self.range.end - line_start_of(
                self.file.contents@,
                self.range.end as int,
            ) + 1,
    {
        self.file.contents.source_location(self.range.end)
    }
}

/// Whether `a` orders at or before `b` as byte strings.
pub open spec fn bytes_le(a: Seq<u8>, b: Seq<u8>) -> bool
    decreases a.len(),
{
    if a.len() == 0 {
        true
    } else if b.len() == 0 {
        false
    } else if a[0] < b[0] {
        true
    } else if a[0] > b[0] {
        false
    } else {
        bytes_le(a.drop_first(), b.drop_first())
    }
}

/// Whether `a` reports at or before `b`: messages order by file name, then
/// by start offset.
pub open spec fn message_le(a: Message, b: Message) -> bool {
    if a.file.name@ != b.file.name@ {
        bytes_le(encode_utf8(a.file.name@), encode_utf8(b.file.name@))
    } else {
        a.range.start <= b.range.start
    }
}

/// Compare two messages in report order: by file name bytes, then by start
/// offset.
pub fn message_comes_before(a: &Message, b: &Message) -> (r: bool)
    ensures
        r == message_le(*a, *b),
{
    let an = a.file.name.as_str().as_bytes();
    let bn = b.file.name.as_str().as_bytes();
    proof {
        assert(an@ == encode_utf8(a.file.name@));
        assert(bn@ == encode_utf8(b.file.name@));
    }
    if crate::registry::bytes_equal(an, bn) {
        proof {
            // Equal byte encodings decode to equal character sequences.
            if a.file.name@ != b.file.name@ {
                encode_utf8_decode_utf8(a.file.name@);
                encode_utf8_decode_utf8(b.file.name@);
            }
        }
        a.range.start <= b.range.start
    } else {
        bytes_le_exec(an, bn)
    }
}

/// Compare two byte strings lexicographically.
fn bytes_le_exec(a: &[u8], b: &[u8]) -> (r: bool)
    ensures
        r == bytes_le(a@, b@),
{
    let mut i: usize = 0;
    proof {
        assert(a@.skip(0) =~= a@);
        assert(b@.skip(0) =~= b@);
    }
    loop
        invariant
            i <= a@.len(),
            i <= b@.len(),
            forall|j: int| 0 <= j < i ==> a@[j] == b@[j],
            bytes_le(a@, b@) == bytes_le(a@.skip(i as int), b@.skip(i as int)),
        decreases a@.len() - i,
    {
        let ghost sa = a@.skip(i as int);
        let ghost sb = b@.skip(i as int);
        if i >= a.len() {
            proof {
                assert(sa.len() == 0);
            }
            return true;
        }
        if i >= b.len() {
            proof {
                assert(sa.len() > 0 && sb.len() == 0);
            }
            return false;
        }
        proof {
            assert(sa[0] == a@[i as int] && sb[0] == b@[i as int]);
            assert(sa.drop_first() =~= a@.skip(i + 1));
            assert(sb.drop_first() =~= b@.skip(i + 1));
        }
        if a[i] < b[i] {
            return true;
        }
        if a[i] > b[i] {
            return false;
        }
        i += 1;
    }
}

} // verus!
