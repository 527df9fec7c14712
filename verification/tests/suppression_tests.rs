//! The suppression pass, the offset mapping, and file-level exemptions.

use pyrogen::checker::{check_path, CheckerResult, ParseOutcome, SyntaxErrorData};
use pyrogen::code_table::ErrorCodeTable;
use pyrogen::directives::{extract_noqa_line_for, TokenInfo, TokenKind};
use pyrogen::flags;
use pyrogen::locator::Locator;
use pyrogen::registry::{Diagnostic, DiagnosticKind, ErrorCode};
use pyrogen::settings::CheckerSettings;
use pyrogen::suppression::check_type_ignore;
use pyrogen::text_range::TextRange;
use pyrogen::type_ignore::{FileExemption, TypeIgnoreMapping};

fn locator_of(source: &str) -> Locator {
    Locator::new(source.as_bytes().to_vec())
}

/// The range of the comment starting at the first `#` at or after `from`,
/// running to the end of its line.
fn comment_range(source: &str, from: usize) -> TextRange {
    let start = from + source[from..].find('#').unwrap();
    let end = match source[start..].find('\n') {
        Some(i) => start + i,
        None => source.len(),
    };
    TextRange::new(start, end)
}

fn diagnostic(code: ErrorCode, start: usize, end: usize) -> Diagnostic {
    Diagnostic::new(
        DiagnosticKind {
            error_code: code,
            body: String::from("finding"),
        },
        TextRange::new(start, end),
    )
}

fn table_of(codes: &[ErrorCode]) -> ErrorCodeTable {
    ErrorCodeTable::from_error_codes(codes)
}

fn settings_for(codes: &[ErrorCode]) -> CheckerSettings {
    CheckerSettings::for_rules(codes)
}

#[test]
fn trailing_directive_suppresses_and_is_used() {
    // One statement triggering a diagnostic on line 3; line 3 carries a
    // trailing blanket directive: the diagnostic is removed and no unused
    // report appears.
    let source = "x = 1\ny = 2\nz: int = 'a'  # type: ignore\n";
    let locator = locator_of(source);
    let comments = vec![comment_range(source, 12)];
    let mapping = TypeIgnoreMapping::new();
    let line3 = 12;
    let diag = diagnostic(ErrorCode::GeneralTypeError, line3, line3 + 12);
    let settings = settings_for(&[
        ErrorCode::SyntaxError,
        ErrorCode::GeneralTypeError,
        ErrorCode::UnusedTypeIgnore,
    ]);
    let result: CheckerResult<Vec<Diagnostic>> = check_path(
        &String::from("file.py"),
        &locator,
        &comments,
        &mapping,
        &settings,
        flags::TypeIgnore::Enabled,
        ParseOutcome::Success(vec![diag]),
    );
    assert!(result.data.is_empty());
    assert!(result.error.is_none());
}

#[test]
fn wrong_code_leaves_diagnostic_and_reports_unmatched() {
    // The directive lists only a different, valid, enabled code: the
    // diagnostic survives and one unmatched-code report appears at the
    // directive's range.
    let source = "x = 1\ny = 2\nz: int = 'a'  # type: ignore[unused-variable]\n";
    let locator = locator_of(source);
    let comments = vec![comment_range(source, 12)];
    let mapping = TypeIgnoreMapping::new();
    let diag = diagnostic(ErrorCode::GeneralTypeError, 12, 24);
    let settings = settings_for(&[
        ErrorCode::GeneralTypeError,
        ErrorCode::UnusedVariable,
        ErrorCode::UnusedTypeIgnore,
    ]);
    let result = check_path(
        &String::from("file.py"),
        &locator,
        &comments,
        &mapping,
        &settings,
        flags::TypeIgnore::Enabled,
        ParseOutcome::Success(vec![diag]),
    );
    assert_eq!(result.data.len(), 2);
    assert_eq!(result.data[0].kind.error_code, ErrorCode::GeneralTypeError);
    assert_eq!(result.data[1].kind.error_code, ErrorCode::UnusedTypeIgnore);
    assert_eq!(
        result.data[1].kind.body,
        "Unused type ignore directive, with codes: unused-variable"
    );
}

#[test]
fn multiline_string_resolves_to_last_line() {
    // A diagnostic inside a multi-line string, with its parent at the
    // statement start, is suppressed by a directive trailing the string's
    // last line: both anchors resolve there through the mapping.
    let source = "a = 1\nb = '''xx\nyy\nzz''' + c  # type: ignore\n";
    let locator = locator_of(source);
    let str_start = source.find("'''").unwrap();
    let str_end = source.rfind("'''").unwrap() + 3;
    let tokens = vec![TokenInfo {
        kind: TokenKind::TripleQuotedString,
        range: TextRange::new(str_start, str_end),
    }];
    let mapping = extract_noqa_line_for(&tokens, &locator, &vec![]);
    let comments = vec![comment_range(source, str_end)];
    let inner = source.find("yy").unwrap();
    let mut diag = diagnostic(ErrorCode::GeneralTypeError, inner, inner + 2);
    diag.set_parent(6);
    let settings = settings_for(&[
        ErrorCode::GeneralTypeError,
        ErrorCode::UnusedTypeIgnore,
    ]);
    let result = check_path(
        &String::from("file.py"),
        &locator,
        &comments,
        &mapping,
        &settings,
        flags::TypeIgnore::Enabled,
        ParseOutcome::Success(vec![diag]),
    );
    assert!(result.data.is_empty());
}

#[test]
fn disabled_syntax_error_keeps_side_channel() {
    // The file fails to parse while the syntax-error code is disabled: no
    // diagnostic comes out, but the raw parse error stays available.
    let source = "x = (((((((((((((((((((((((((((((((((((((((((1\n";
    let locator = locator_of(source);
    let mapping = TypeIgnoreMapping::new();
    let settings = settings_for(&[ErrorCode::GeneralTypeError]);
    let result = check_path(
        &String::from("file.py"),
        &locator,
        &vec![],
        &mapping,
        &settings,
        flags::TypeIgnore::Enabled,
        ParseOutcome::Failure(SyntaxErrorData {
            offset: 42,
            message: String::from("unexpected end of file"),
        }),
    );
    assert!(result.data.is_empty());
    assert!(result.error.is_some());
}

#[test]
fn enabled_syntax_error_is_reported() {
    let source = "x = :\n";
    let locator = locator_of(source);
    let mapping = TypeIgnoreMapping::new();
    let settings = settings_for(&[ErrorCode::SyntaxError]);
    let result = check_path(
        &String::from("file.py"),
        &locator,
        &vec![],
        &mapping,
        &settings,
        flags::TypeIgnore::Enabled,
        ParseOutcome::Failure(SyntaxErrorData {
            offset: 4,
            message: String::from("invalid syntax"),
        }),
    );
    assert_eq!(result.data.len(), 1);
    assert_eq!(result.data[0].kind.error_code, ErrorCode::SyntaxError);
    assert_eq!(result.data[0].kind.body, "Syntax error: invalid syntax");
    assert_eq!(result.data[0].range.start, 4);
    assert_eq!(result.data[0].range.end, 5);
    assert!(result.error.is_some());
}

#[test]
fn midline_comment_is_no_file_exemption() {
    // A blanket comment that is not alone on its line is rejected as a
    // file exemption, while ordinary per-line suppression still works.
    let source = "x = 1  # type: ignore\n";
    let locator = locator_of(source);
    let comments = vec![comment_range(source, 0)];
    assert_eq!(FileExemption::try_extract(&comments, &locator), None);

    let mapping = TypeIgnoreMapping::new();
    let mut diags = vec![diagnostic(ErrorCode::GeneralTypeError, 0, 5)];
    let table = table_of(&[ErrorCode::GeneralTypeError, ErrorCode::UnusedTypeIgnore]);
    let ignored = check_type_ignore(&mut diags, &locator, &comments, &mapping, true, &table);
    assert_eq!(ignored, vec![0]);
}

#[test]
fn own_line_blanket_comment_exempts_the_file() {
    // A blanket comment alone on its line exempts every diagnostic in the
    // file, regardless of code.
    let source = "# type: ignore\nx = 1\ny = 2\n";
    let locator = locator_of(source);
    let comments = vec![comment_range(source, 0)];
    assert_eq!(
        FileExemption::try_extract(&comments, &locator),
        Some(FileExemption::All)
    );

    let mapping = TypeIgnoreMapping::new();
    let mut diags = vec![
        diagnostic(ErrorCode::GeneralTypeError, 15, 20),
        diagnostic(ErrorCode::UnusedVariable, 21, 26),
    ];
    let table = table_of(&[
        ErrorCode::GeneralTypeError,
        ErrorCode::UnusedVariable,
        ErrorCode::UnusedTypeIgnore,
    ]);
    let ignored = check_type_ignore(&mut diags, &locator, &comments, &mapping, true, &table);
    assert_eq!(ignored, vec![0, 1]);
    assert_eq!(diags.len(), 2);
}

#[test]
fn blanket_directive_without_effect_is_reported_once() {
    // A trailing blanket directive on a line with zero diagnostics yields
    // exactly one unused-directive report.
    let source = "x = 1  # type: ignore\n";
    let locator = locator_of(source);
    let comments = vec![comment_range(source, 0)];
    let mapping = TypeIgnoreMapping::new();
    let mut diags: Vec<Diagnostic> = vec![];
    let table = table_of(&[ErrorCode::UnusedTypeIgnore]);
    let ignored = check_type_ignore(&mut diags, &locator, &comments, &mapping, true, &table);
    assert!(ignored.is_empty());
    assert_eq!(diags.len(), 1);
    assert_eq!(diags[0].kind.error_code, ErrorCode::UnusedTypeIgnore);
    assert_eq!(diags[0].kind.body, "Unused type ignore directive");
    let start = source.find('#').unwrap();
    assert_eq!(diags[0].range.start, start);
    assert_eq!(diags[0].range.end, start + "# type: ignore".len());
}

#[test]
fn fully_matched_scoped_directive_is_silent() {
    // A scoped directive whose every listed code matched something yields
    // no extra diagnostics.
    let source = "z: int = 'a'  # type: ignore[general]\n";
    let locator = locator_of(source);
    let comments = vec![comment_range(source, 0)];
    let mapping = TypeIgnoreMapping::new();
    let mut diags = vec![diagnostic(ErrorCode::GeneralTypeError, 0, 12)];
    let table = table_of(&[ErrorCode::GeneralTypeError, ErrorCode::UnusedTypeIgnore]);
    let ignored = check_type_ignore(&mut diags, &locator, &comments, &mapping, true, &table);
    assert_eq!(ignored, vec![0]);
    assert_eq!(diags.len(), 1);
}

#[test]
fn self_referential_directive_is_never_flagged() {
    // A scoped directive listing the unused-suppression code itself is
    // skipped by the unused pass even though nothing matched.
    let source = "x = 1  # type: ignore[unused-type-ignore,override]\n";
    let locator = locator_of(source);
    let comments = vec![comment_range(source, 0)];
    let mapping = TypeIgnoreMapping::new();
    let mut diags: Vec<Diagnostic> = vec![];
    let table = table_of(&[ErrorCode::UnusedTypeIgnore, ErrorCode::Override]);
    let ignored = check_type_ignore(&mut diags, &locator, &comments, &mapping, true, &table);
    assert!(ignored.is_empty());
    assert!(diags.is_empty());
}

#[test]
fn unknown_codes_get_their_own_report() {
    let source = "x = 1  # type: ignore[no-such-code]\n";
    let locator = locator_of(source);
    let comments = vec![comment_range(source, 0)];
    let mapping = TypeIgnoreMapping::new();
    let mut diags: Vec<Diagnostic> = vec![];
    let table = table_of(&[ErrorCode::UnusedTypeIgnore]);
    check_type_ignore(&mut diags, &locator, &comments, &mapping, true, &table);
    assert_eq!(diags.len(), 1);
    assert_eq!(
        diags[0].kind.body,
        "Type ignore directive with unknown codes"
    );
}

#[test]
fn disabled_codes_are_silent() {
    // A listed code that is valid but disabled in configuration is not
    // reported.
    let source = "x = 1  # type: ignore[override]\n";
    let locator = locator_of(source);
    let comments = vec![comment_range(source, 0)];
    let mapping = TypeIgnoreMapping::new();
    let mut diags: Vec<Diagnostic> = vec![];
    let table = table_of(&[ErrorCode::UnusedTypeIgnore]);
    check_type_ignore(&mut diags, &locator, &comments, &mapping, true, &table);
    assert!(diags.is_empty());
}

#[test]
fn resolve_is_idempotent_on_values() {
    let mapping = TypeIgnoreMapping::from_ranges(&vec![
        TextRange::new(0, 22),
        TextRange::new(30, 40),
    ]);
    for offset in [0usize, 5, 22, 23, 30, 40, 41, 100] {
        let once = mapping.resolve(offset);
        assert_eq!(mapping.resolve(once), once);
    }
    assert_eq!(mapping.resolve(5), 22);
    assert_eq!(mapping.resolve(23), 23);
}

#[test]
fn push_mapping_coalesces_overlaps() {
    // Two overlapping ranges merge into one spanning both; a range
    // strictly after the last never merges.
    let merged = TypeIgnoreMapping::from_ranges(&vec![
        TextRange::new(0, 5),
        TextRange::new(3, 9),
    ]);
    assert_eq!(
        merged,
        TypeIgnoreMapping::from_ranges(&vec![TextRange::new(0, 9)])
    );
    let separate = TypeIgnoreMapping::from_ranges(&vec![
        TextRange::new(0, 5),
        TextRange::new(7, 9),
    ]);
    assert_eq!(separate.resolve(4), 5);
    assert_eq!(separate.resolve(8), 9);
    assert_eq!(separate.resolve(6), 6);
}

fn noqa_mappings(contents: &str, tokens: Vec<TokenInfo>, conts: Vec<usize>) -> TypeIgnoreMapping {
    extract_noqa_line_for(&tokens, &locator_of(contents), &conts)
}

#[test]
fn noqa_extraction() {
    // Plain files have no remapping.
    let contents = "x = 1\ny = 2 + 1\nz = x + 1";
    assert_eq!(
        noqa_mappings(contents, vec![], vec![]),
        TypeIgnoreMapping::new()
    );

    let contents = "\nx = 1\ny = 2\nz = x + 1";
    assert_eq!(
        noqa_mappings(contents, vec![], vec![]),
        TypeIgnoreMapping::new()
    );

    let contents = "x = 1\ny = 2\nz = x + 1\n        ";
    assert_eq!(
        noqa_mappings(contents, vec![], vec![]),
        TypeIgnoreMapping::new()
    );

    let contents = "x = 1\n\ny = 2\nz = x + 1\n        ";
    assert_eq!(
        noqa_mappings(contents, vec![], vec![]),
        TypeIgnoreMapping::new()
    );

    // A multi-line string maps from its first line's start to its end.
    let contents = "x = '''abc\ndef\nghi\n'''\ny = 2\nz = x + 1";
    assert_eq!(
        noqa_mappings(
            contents,
            vec![TokenInfo {
                kind: TokenKind::TripleQuotedString,
                range: TextRange::new(4, 22),
            }],
            vec![],
        ),
        TypeIgnoreMapping::from_ranges(&vec![TextRange::new(0, 22)])
    );

    let contents = "x = 1\ny = '''abc\ndef\nghi\n'''\nz = 2";
    assert_eq!(
        noqa_mappings(
            contents,
            vec![TokenInfo {
                kind: TokenKind::TripleQuotedString,
                range: TextRange::new(10, 28),
            }],
            vec![],
        ),
        TypeIgnoreMapping::from_ranges(&vec![TextRange::new(6, 28)])
    );

    let contents = "x = 1\ny = '''abc\ndef\nghi\n'''";
    assert_eq!(
        noqa_mappings(
            contents,
            vec![TokenInfo {
                kind: TokenKind::TripleQuotedString,
                range: TextRange::new(10, 28),
            }],
            vec![],
        ),
        TypeIgnoreMapping::from_ranges(&vec![TextRange::new(6, 28)])
    );

    // A continuation line maps from its start to its full line end.
    let contents = "x = \\\n    1";
    assert_eq!(
        noqa_mappings(contents, vec![], vec![0]),
        TypeIgnoreMapping::from_ranges(&vec![TextRange::new(0, 6)])
    );

    // Adjacent continuation lines coalesce into one run.
    let contents = "from foo import \\\n    bar as baz, \\\n    qux as quux";
    assert_eq!(
        noqa_mappings(contents, vec![], vec![0, 18]),
        TypeIgnoreMapping::from_ranges(&vec![TextRange::new(0, 36)])
    );

    let contents =
        "\n# Foo\nfrom foo import \\\n    bar as baz, \\\n    qux as quux # Baz\nx = \\\n    1\ny = \\\n    2";
    assert_eq!(
        noqa_mappings(contents, vec![], vec![7, 25, 65, 77]),
        TypeIgnoreMapping::from_ranges(&vec![
            TextRange::new(7, 43),
            TextRange::new(65, 71),
            TextRange::new(77, 83),
        ])
    );

    // A continuation whose last line opens a multi-line string merges with
    // the string's own range.
    let contents = "assert foo, \\\n    '''triple-quoted\n    string'''";
    assert_eq!(
        noqa_mappings(
            contents,
            vec![TokenInfo {
                kind: TokenKind::TripleQuotedString,
                range: TextRange::new(18, 48),
            }],
            vec![0],
        ),
        TypeIgnoreMapping::from_ranges(&vec![TextRange::new(0, 48)])
    );
}

#[test]
fn syntax_error_at_end_of_file_keeps_nonempty_range() {
    // A parse failure at the very end of the text still gets a non-empty
    // highlight: one byte past the end.
    let source = "x = (";
    let locator = locator_of(source);
    let settings = settings_for(&[ErrorCode::SyntaxError]);
    let result = check_path(
        &String::from("file.py"),
        &locator,
        &vec![],
        &TypeIgnoreMapping::new(),
        &settings,
        flags::TypeIgnore::Enabled,
        ParseOutcome::Failure(SyntaxErrorData {
            offset: source.len(),
            message: String::from("unexpected end of file"),
        }),
    );
    assert_eq!(result.data.len(), 1);
    assert_eq!(result.data[0].range.start, source.len());
    assert_eq!(result.data[0].range.end, source.len() + 1);
}
