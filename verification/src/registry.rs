//! The closed registry of diagnostic kinds: every finding the checker can
//! report carries one [`ErrorCode`], a densely packed, totally ordered
//! identifier with a stable display form and a lint-source classification.

use vstd::prelude::*;
use crate::text_range::TextRange;

verus! {

/// Number of error codes in the registry.
pub const NUM_ERROR_CODES: u16 = 10;

/// A stable identifier for one category of finding.
#[derive(Clone, Copy, Debug, PartialEq, Eq, Structural)]
pub enum ErrorCode {
    InvalidPyprojectToml,
    Override,
    Unreachable,
    UnusedTypeIgnore,
    SyntaxError,
    GeneralTypeError,
    UnusedImport,
    UnusedVariable,
    UndefinedName,
    IOError,
}

/// The ordinal of a code: its position in the registry, in declaration order.
pub open spec fn code_ord(c: ErrorCode) -> int {
    match c {
        ErrorCode::InvalidPyprojectToml => 0,
        ErrorCode::Override => 1,
        ErrorCode::Unreachable => 2,
        ErrorCode::UnusedTypeIgnore => 3,
        ErrorCode::SyntaxError => 4,
        ErrorCode::GeneralTypeError => 5,
        ErrorCode::UnusedImport => 6,
        ErrorCode::UnusedVariable => 7,
        ErrorCode::UndefinedName => 8,
        ErrorCode::IOError => 9,
    }
}

/// The code whose ordinal is `i` (total: out-of-range ordinals map to the
/// first code).
pub open spec fn code_of_ord(i: int) -> ErrorCode {
    if i == 1 {
        ErrorCode::Override
    } else if i == 2 {
        ErrorCode::Unreachable
    } else if i == 3 {
        ErrorCode::UnusedTypeIgnore
    } else if i == 4 {
        ErrorCode::SyntaxError
    } else if i == 5 {
        ErrorCode::GeneralTypeError
    } else if i == 6 {
        ErrorCode::UnusedImport
    } else if i == 7 {
        ErrorCode::UnusedVariable
    } else if i == 8 {
        ErrorCode::UndefinedName
    } else if i == 9 {
        ErrorCode::IOError
    } else {
        ErrorCode::InvalidPyprojectToml
    }
}

pub proof fn lemma_code_ord_bijective()
    ensures
        forall|c: ErrorCode| 0 <= #[trigger] code_ord(c) < NUM_ERROR_CODES as int,
        forall|c: ErrorCode| code_of_ord(#[trigger] code_ord(c)) == c,
{
}

/// The stable display label of each code, as characters.
pub open spec fn code_label(c: ErrorCode) -> Seq<char> {
    match c {
        ErrorCode::InvalidPyprojectToml => "InvalidPyprojectToml"@,
        ErrorCode::Override => "override"@,
        ErrorCode::Unreachable => "unreachable"@,
        ErrorCode::UnusedTypeIgnore => "unused-type-ignore"@,
        ErrorCode::SyntaxError => "syntax-error"@,
        ErrorCode::GeneralTypeError => "general"@,
        ErrorCode::UnusedImport => "unused-import"@,
        ErrorCode::UnusedVariable => "unused-variable"@,
        ErrorCode::UndefinedName => "undefined-name"@,
        ErrorCode::IOError => "io-error"@,
    }
}

/// The stable display label of each code, as bytes (all labels are ASCII, so
/// this is the byte form of [`code_label`]).
pub open spec fn code_bytes(c: ErrorCode) -> Seq<u8> {
    match c {
        ErrorCode::InvalidPyprojectToml => seq![
            ('I' as u8), ('n' as u8), ('v' as u8), ('a' as u8), ('l' as u8), ('i' as u8), ('d' as u8), ('P' as u8), ('y' as u8), ('p' as u8), ('r' as u8), ('o' as u8), ('j' as u8),
            ('e' as u8), ('c' as u8), ('t' as u8), ('T' as u8), ('o' as u8), ('m' as u8), ('l' as u8),
        ],
        ErrorCode::Override => seq![('o' as u8), ('v' as u8), ('e' as u8), ('r' as u8), ('r' as u8), ('i' as u8), ('d' as u8), ('e' as u8)],
        ErrorCode::Unreachable => seq![
            ('u' as u8), ('n' as u8), ('r' as u8), ('e' as u8), ('a' as u8), ('c' as u8), ('h' as u8), ('a' as u8), ('b' as u8), ('l' as u8), ('e' as u8),
        ],
        ErrorCode::UnusedTypeIgnore => seq![
            ('u' as u8), ('n' as u8), ('u' as u8), ('s' as u8), ('e' as u8), ('d' as u8), ('-' as u8), ('t' as u8), ('y' as u8), ('p' as u8), ('e' as u8), ('-' as u8), ('i' as u8),
            ('g' as u8), ('n' as u8), ('o' as u8), ('r' as u8), ('e' as u8),
        ],
        ErrorCode::SyntaxError => seq![
            ('s' as u8), ('y' as u8), ('n' as u8), ('t' as u8), ('a' as u8), ('x' as u8), ('-' as u8), ('e' as u8), ('r' as u8), ('r' as u8), ('o' as u8), ('r' as u8),
        ],
        ErrorCode::GeneralTypeError => seq![('g' as u8), ('e' as u8), ('n' as u8), ('e' as u8), ('r' as u8), ('a' as u8), ('l' as u8)],
        ErrorCode::UnusedImport => seq![
            ('u' as u8), ('n' as u8), ('u' as u8), ('s' as u8), ('e' as u8), ('d' as u8), ('-' as u8), ('i' as u8), ('m' as u8), ('p' as u8), ('o' as u8), ('r' as u8), ('t' as u8),
        ],
        ErrorCode::UnusedVariable => seq![
            ('u' as u8), ('n' as u8), ('u' as u8), ('s' as u8), ('e' as u8), ('d' as u8), ('-' as u8), ('v' as u8), ('a' as u8), ('r' as u8), ('i' as u8), ('a' as u8), ('b' as u8),
            ('l' as u8), ('e' as u8),
        ],
        ErrorCode::UndefinedName => seq![
            ('u' as u8), ('n' as u8), ('d' as u8), ('e' as u8), ('f' as u8), ('i' as u8), ('n' as u8), ('e' as u8), ('d' as u8), ('-' as u8), ('n' as u8), ('a' as u8), ('m' as u8),
            ('e' as u8),
        ],
        ErrorCode::IOError => seq![('i' as u8), ('o' as u8), ('-' as u8), ('e' as u8), ('r' as u8), ('r' as u8), ('o' as u8), ('r' as u8)],
    }
}

/// Labels are distinct: the byte form identifies the code.
pub proof fn lemma_code_bytes_injective(a: ErrorCode, b: ErrorCode)
    ensures
        code_bytes(a) == code_bytes(b) ==> a == b,
{
    if a != b && code_bytes(a) == code_bytes(b) {
        assert(code_bytes(a).len() == code_bytes(b).len());
        assert(false) by {
            assert(code_bytes(a)[0] == code_bytes(b)[0]);
            assert(code_bytes(a)[1] == code_bytes(b)[1]);
            assert(code_bytes(a)[2] == code_bytes(b)[2]);
            assert(code_bytes(a)[3] == code_bytes(b)[3]);
            assert(code_bytes(a)[7] == code_bytes(b)[7]);
        }
    }
}

impl ErrorCode {
    /// The ordinal as an executable value.
    pub fn as_u16(&self) -> (r: u16)
        ensures
            r == code_ord(*self),
    {
        match self {
            ErrorCode::InvalidPyprojectToml => 0,
            ErrorCode::Override => 1,
            ErrorCode::Unreachable => 2,
            ErrorCode::UnusedTypeIgnore => 3,
            ErrorCode::SyntaxError => 4,
            ErrorCode::GeneralTypeError => 5,
            ErrorCode::UnusedImport => 6,
            ErrorCode::UnusedVariable => 7,
            ErrorCode::UndefinedName => 8,
            ErrorCode::IOError => 9,
        }
    }

    /// The code with the given ordinal.
    pub fn from_u16(i: u16) -> (r: ErrorCode)
        ensures
            r == code_of_ord(i as int),
    {
        if i == 1 {
            ErrorCode::Override
        } else if i == 2 {
            ErrorCode::Unreachable
        } else if i == 3 {
            ErrorCode::UnusedTypeIgnore
        } else if i == 4 {
            ErrorCode::SyntaxError
        } else if i == 5 {
            ErrorCode::GeneralTypeError
        } else if i == 6 {
            ErrorCode::UnusedImport
        } else if i == 7 {
            ErrorCode::UnusedVariable
        } else if i == 8 {
            ErrorCode::UndefinedName
        } else if i == 9 {
            ErrorCode::IOError
        } else {
            ErrorCode::InvalidPyprojectToml
        }
    }

    /// The stable display form of the code.
    pub fn to_str(&self) -> (r: &'static str)
        ensures
            r@ == code_label(*self),
    {
        match self {
            ErrorCode::InvalidPyprojectToml => "InvalidPyprojectToml",
            ErrorCode::Override => "override",
            ErrorCode::Unreachable => "unreachable",
            ErrorCode::UnusedTypeIgnore => "unused-type-ignore",
            ErrorCode::SyntaxError => "syntax-error",
            ErrorCode::GeneralTypeError => "general",
            ErrorCode::UnusedImport => "unused-import",
            ErrorCode::UnusedVariable => "unused-variable",
            ErrorCode::UndefinedName => "undefined-name",
            ErrorCode::IOError => "io-error",
        }
    }

    /// The stable display form of the code, as owned bytes.
    pub fn to_code_bytes(&self) -> (r: Vec<u8>)
        ensures
            r@ == code_bytes(*self),
    {
        let r: Vec<u8> = match self {
            ErrorCode::InvalidPyprojectToml => vec![
                ('I' as u8), ('n' as u8), ('v' as u8), ('a' as u8), ('l' as u8), ('i' as u8), ('d' as u8), ('P' as u8), ('y' as u8), ('p' as u8), ('r' as u8), ('o' as u8),
                ('j' as u8), ('e' as u8), ('c' as u8), ('t' as u8), ('T' as u8), ('o' as u8), ('m' as u8), ('l' as u8),
            ],
            ErrorCode::Override => vec![('o' as u8), ('v' as u8), ('e' as u8), ('r' as u8), ('r' as u8), ('i' as u8), ('d' as u8), ('e' as u8)],
            ErrorCode::Unreachable => vec![
                ('u' as u8), ('n' as u8), ('r' as u8), ('e' as u8), ('a' as u8), ('c' as u8), ('h' as u8), ('a' as u8), ('b' as u8), ('l' as u8), ('e' as u8),
            ],
            ErrorCode::UnusedTypeIgnore => vec![
                ('u' as u8), ('n' as u8), ('u' as u8), ('s' as u8), ('e' as u8), ('d' as u8), ('-' as u8), ('t' as u8), ('y' as u8), ('p' as u8), ('e' as u8), ('-' as u8),
                ('i' as u8), ('g' as u8), ('n' as u8), ('o' as u8), ('r' as u8), ('e' as u8),
            ],
            ErrorCode::SyntaxError => vec![
                ('s' as u8), ('y' as u8), ('n' as u8), ('t' as u8), ('a' as u8), ('x' as u8), ('-' as u8), ('e' as u8), ('r' as u8), ('r' as u8), ('o' as u8), ('r' as u8),
            ],
            ErrorCode::GeneralTypeError => vec![('g' as u8), ('e' as u8), ('n' as u8), ('e' as u8), ('r' as u8), ('a' as u8), ('l' as u8)],
            ErrorCode::UnusedImport => vec![
                ('u' as u8), ('n' as u8), ('u' as u8), ('s' as u8), ('e' as u8), ('d' as u8), ('-' as u8), ('i' as u8), ('m' as u8), ('p' as u8), ('o' as u8), ('r' as u8),
                ('t' as u8),
            ],
            ErrorCode::UnusedVariable => vec![
                ('u' as u8), ('n' as u8), ('u' as u8), ('s' as u8), ('e' as u8), ('d' as u8), ('-' as u8), ('v' as u8), ('a' as u8), ('r' as u8), ('i' as u8), ('a' as u8),
                ('b' as u8), ('l' as u8), ('e' as u8),
            ],
            ErrorCode::UndefinedName => vec![
                ('u' as u8), ('n' as u8), ('d' as u8), ('e' as u8), ('f' as u8), ('i' as u8), ('n' as u8), ('e' as u8), ('d' as u8), ('-' as u8), ('n' as u8), ('a' as u8),
                ('m' as u8), ('e' as u8),
            ],
            ErrorCode::IOError => vec![('i' as u8), ('o' as u8), ('-' as u8), ('e' as u8), ('r' as u8), ('r' as u8), ('o' as u8), ('r' as u8)],
        };
        assert(r@ =~= code_bytes(*self));
        r
    }

    /// Parse a code from its stable byte form; `Err` exactly on byte strings
    /// that are the display form of no code.
    pub fn from_code_bytes(s: &[u8]) -> (r: Result<ErrorCode, FromCodeError>)
        ensures
            match r {
                Ok(c) => code_bytes(c) == s@,
                Err(_) => forall|c: ErrorCode| code_bytes(c) != s@,
            },
    {
        let codes = all_error_codes();
        let mut i: usize = 0;
        while i < codes.len()
            invariant
                codes@.len() == NUM_ERROR_CODES as int,
                forall|j: int| 0 <= j < codes@.len() ==> code_ord(#[trigger] codes@[j]) == j,
                forall|j: int| 0 <= j < i ==> code_bytes(#[trigger] codes@[j]) != s@,
                i <= codes@.len(),
            decreases codes@.len() - i,
        {
            let c = codes[i];
            if bytes_equal(c.to_code_bytes().as_slice(), s) {
                return Ok(c);
            }
            i += 1;
        }
        proof {
            assert forall|c: ErrorCode| code_bytes(c) != s@ by {
                lemma_code_ord_bijective();
                let j = code_ord(c);
                assert(codes@[j] == code_of_ord(code_ord(codes@[j])));
                assert(codes@[j] == c);
            }
        }
        Err(FromCodeError::Unknown)
    }

    /// Which analysis phase produces diagnostics with this code.
    pub fn lint_source(&self) -> (r: CheckerSource)
        ensures
            r == spec_lint_source(*self),
    {
        match self {
            ErrorCode::InvalidPyprojectToml => CheckerSource::PyprojectToml,
            ErrorCode::UnusedTypeIgnore => CheckerSource::Noqa,
            ErrorCode::Override => CheckerSource::Tokens,
            ErrorCode::Unreachable => CheckerSource::LogicalLines,
            _ => CheckerSource::Ast,
        }
    }
}

/// Compare two byte strings for equality.
pub fn bytes_equal(a: &[u8], b: &[u8]) -> (r: bool)
    ensures
        r == (a@ == b@),
{
    if a.len() != b.len() {
        assert(a@ != b@) by {
            assert(a@.len() != b@.len());
        }
        return false;
    }
    let mut i: usize = 0;
    while i < a.len()
        invariant
            i <= a@.len(),
            a@.len() == b@.len(),
            forall|j: int| 0 <= j < i ==> a@[j] == b@[j],
        decreases a@.len() - i,
    {
        if a[i] != b[i] {
            return false;
        }
        i += 1;
    }
    proof {
        assert(a@ =~= b@);
    }
    true
}

/// All codes of the registry, in ordinal order.
pub fn all_error_codes() -> (r: Vec<ErrorCode>)
    ensures
        r@.len() == NUM_ERROR_CODES as int,
        forall|j: int| 0 <= j < r@.len() ==> code_ord(#[trigger] r@[j]) == j,
        forall|j: int| 0 <= j < r@.len() ==> r@[j] == code_of_ord(j),
{
    let r: Vec<ErrorCode> = vec![
        ErrorCode::InvalidPyprojectToml,
        ErrorCode::Override,
        ErrorCode::Unreachable,
        ErrorCode::UnusedTypeIgnore,
        ErrorCode::SyntaxError,
        ErrorCode::GeneralTypeError,
        ErrorCode::UnusedImport,
        ErrorCode::UnusedVariable,
        ErrorCode::UndefinedName,
        ErrorCode::IOError,
    ];
    r
}

/// The failure of parsing a code from its display form.
#[derive(Clone, Copy, Debug, PartialEq, Eq, Structural)]
pub enum FromCodeError {
    Unknown,
}

/// Which analysis phase produces a given code.
#[derive(Clone, Copy, Debug, PartialEq, Eq, Structural)]
pub enum CheckerSource {
    Ast,
    Io,
    PhysicalLines,
    LogicalLines,
    Tokens,
    Imports,
    Noqa,
    Filesystem,
    PyprojectToml,
}

/// Which analysis phase produces diagnostics with the given code.
pub open spec fn spec_lint_source(c: ErrorCode) -> CheckerSource {
    match c {
        ErrorCode::InvalidPyprojectToml => CheckerSource::PyprojectToml,
        ErrorCode::UnusedTypeIgnore => CheckerSource::Noqa,
        ErrorCode::Override => CheckerSource::Tokens,
        ErrorCode::Unreachable => CheckerSource::LogicalLines,
        _ => CheckerSource::Ast,
    }
}

impl CheckerSource {
    pub fn is_filesystem(&self) -> (r: bool)
        ensures
            r == (*self == CheckerSource::Filesystem),
    {
        matches!(self, CheckerSource::Filesystem)
    }

    pub fn is_noqa(&self) -> (r: bool)
        ensures
            r == (*self == CheckerSource::Noqa),
    {
        matches!(self, CheckerSource::Noqa)
    }
}

/// The payload of one finding: its code and the message shown to the user.
#[derive(Clone, Debug, PartialEq, Eq)]
pub struct DiagnosticKind {
    /// The error code that this diagnostic is associated with.
    pub error_code: ErrorCode,
    /// The message body to display to the user, to explain the diagnostic.
    pub body: String,
}

/// Anything that carries an error code.
pub trait AsErrorCode {
    fn error_code(&self) -> ErrorCode;
}

impl AsErrorCode for DiagnosticKind {
    fn error_code(&self) -> (r: ErrorCode)
        ensures
            r == self.error_code,
    {
        self.error_code
    }
}

/// One in-flight finding: a kind, the byte range to underline, and (for
/// diagnostics inside multi-line constructs) the start offset of the
/// enclosing statement, used when resolving suppression anchors.
#[derive(Clone, Debug, PartialEq, Eq)]
pub struct Diagnostic {
    pub kind: DiagnosticKind,
    pub range: TextRange,
    pub parent: Option<usize>,
}

impl Diagnostic {
    pub fn new(kind: DiagnosticKind, range: TextRange) -> (r: Diagnostic)
        ensures
            r.kind == kind,
            r.range == range,
            r.parent is None,
    {
        Diagnostic { kind, range, parent: None }
    }

    /// Set the location of the diagnostic's parent node.
    pub fn set_parent(&mut self, parent: usize)
        ensures
            final(self).kind == old(self).kind,
            final(self).range == old(self).range,
            final(self).parent == Some(parent),
    {
        self.parent = Some(parent);
    }

    pub fn range(&self) -> (r: TextRange)
        ensures
            r == self.range,
    {
        self.range.clone()
    }

    /// An owned copy of this diagnostic.
    pub fn clone_diagnostic(&self) -> (r: Diagnostic)
        ensures
            r == *self,
    {
        Diagnostic {
            kind: DiagnosticKind {
                error_code: self.kind.error_code,
                body: self.kind.body.clone(),
            },
            range: self.range,
            parent: self.parent,
        }
    }
}

/// Every code's display label is non-empty.
pub proof fn lemma_label_len_pos(c: ErrorCode)
    ensures
        code_label(c).len() > 0,
{
    reveal_strlit("InvalidPyprojectToml");
    reveal_strlit("override");
    reveal_strlit("unreachable");
    reveal_strlit("unused-type-ignore");
    reveal_strlit("syntax-error");
    reveal_strlit("general");
    reveal_strlit("unused-import");
    reveal_strlit("unused-variable");
    reveal_strlit("undefined-name");
    reveal_strlit("io-error");
}

} // verus!
