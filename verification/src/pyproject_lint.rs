//! Linting a project configuration file: a document that does not parse
//! as TOML yields one diagnostic, when the corresponding code is enabled.

use vstd::prelude::*;
use vstd::string::{StringExecFns, StrSliceExecFns};
use crate::code_table::MessageKind;
use crate::locator::Locator;
use crate::message::{Message, SourceFile};
use crate::registry::{code_ord, Diagnostic, DiagnosticKind, ErrorCode};
use crate::settings::CheckerSettings;
use crate::text_range::TextRange;

verus! {

/// What parsing `s` as a TOML document yields: `None` on success, or the
/// error's span and message. Relies on the toml crate; the outcome is a
/// function of the text alone.
pub uninterp spec fn toml_error_of(s: Seq<char>) -> Option<(Option<(usize, usize)>, Seq<char>)>;

/// Relies on `toml::from_str::<toml::Table>`: whether the text parses as a
/// TOML table, and on failure the error's span and message.
#[verifier::external_body]
fn parse_toml_document(contents: &String) -> (r: Option<(Option<(usize, usize)>, String)>)
    ensures
        match (r, toml_error_of(contents@)) {
            (None, None) => true,
            (Some(e), Some(e2)) => e.0 == e2.0 && e.1@ == e2.1,
            _ => false,
        },
{
    match toml::from_str::<toml::Table>(contents.as_str()) {
        Ok(_) => None,
        Err(e) => Some((e.span().map(|r| (r.start, r.end)), e.message().to_string())),
    }
}

/// The highlight range reported for a TOML error span: the span itself
/// when it is ordered, its start alone when not, and the file start when
/// the parser gave no span.
pub open spec fn toml_error_range(span: Option<(usize, usize)>) -> (int, int) {
    match span {
        None => (0int, 0int),
        Some(se) => if se.0 <= se.1 {
            (se.0 as int, se.1 as int)
        } else {
            (se.0 as int, se.0 as int)
        },
    }
}

/// Check one project configuration file: a document that does not parse
/// as TOML yields one message carrying the parser's words, anchored at the
/// error span, provided the configuration-error code is enabled. Only
/// well-formedness of the document is checked here; whether its tables
/// have the shape project metadata demands is not.
pub fn lint_pyproject_toml(name: String, contents: String, settings: &CheckerSettings) -> (r:
    Vec<Message>)
    ensures
        ({
            let outcome = toml_error_of(contents@);
            match outcome {
                None => r@.len() == 0,
                Some(e) => {
                    if settings.table.enabled_set().contains(code_ord(
                        ErrorCode::InvalidPyprojectToml,
                    )) {
                        &&& r@.len() == 1
                        &&& r@[0].diagnostic.error_code == ErrorCode::InvalidPyprojectToml
                        &&& r@[0].diagnostic.body@ == "Failed to parse pyproject.toml: "@
                            + e.1
                        &&& r@[0].range.start == toml_error_range(e.0).0
                        &&& r@[0].range.end == toml_error_range(e.0).1
                        &&& r@[0].file.name@ == name@
                        &&& r@[0].kind == MessageKind::Error
                    } else {
                        r@.len() == 0
                    }
                },
            }
        }),
{
    let outcome = parse_toml_document(&contents);
    let mut messages: Vec<Message> = Vec::new();
    match outcome {
        None => messages,
        Some(err) => {
            if settings.table.enabled(ErrorCode::InvalidPyprojectToml) {
                let range = match err.0 {
                    None => TextRange::empty(),
                    Some(se) => if se.0 <= se.1 {
                        TextRange::new(se.0, se.1)
                    } else {
                        TextRange::new(se.0, se.0)
                    },
                };
                let mut body = String::from_str("Failed to parse pyproject.toml: ");
                body.append(err.1.as_str());
                let diagnostic = Diagnostic::new(
                    DiagnosticKind { error_code: ErrorCode::InvalidPyprojectToml, body },
                    range,
                );
                let file = SourceFile::new(name, Locator::new(contents.as_str().as_bytes_vec()));
                let message = Message::from_diagnostic(diagnostic, file, 0, MessageKind::Error);
                messages.push(message);
            }
            messages
        },
    }
}

} // verus!
