//! Line resolution, messages, settings, selectors, and the configuration
//! file lint.

use pyrogen::checker::{
    check_ast, collect_rule_codes, diagnostics_to_messages, messages_from_read_error,
    type_mismatch, unused_type_ignore, AnnAssignNode, ConstantNodeValue, PyStmt,
};
use pyrogen::code_selector::{ErrorCodeSelector, ErrorCodeSelectorIter, Specificity};
use pyrogen::code_table::{ErrorCodeTable, MessageKind};
use pyrogen::config::{default_errors, default_warnings, Configuration, ErrorCodeSelection};
use pyrogen::flags::{Cache, TypeIgnore};
use pyrogen::locator::Locator;
use pyrogen::message::{message_comes_before, Message, SourceFile};
use pyrogen::pyproject_lint::lint_pyproject_toml;
use pyrogen::registry::{Diagnostic, DiagnosticKind, ErrorCode};
use pyrogen::rule_table::RuleTable;
use pyrogen::settings::{
    ignores_from_path, resolve_per_file_ignores, CheckerSettings, PerFileIgnore,
    PythonVersion, SerializationFormat,
};
use pyrogen::rule_set::ErrorCodeSet;
use pyrogen::source_kind::SourceKind;
use pyrogen::text_range::TextRange;
use pyrogen::type_ignore::TypeIgnoreMapping;

fn locator_of(source: &str) -> Locator {
    Locator::new(source.as_bytes().to_vec())
}

#[test]
fn line_boundaries() {
    let source = "ab\ncd\n\nxyz";
    let locator = locator_of(source);
    assert_eq!(locator.line_start(0), 0);
    assert_eq!(locator.line_start(4), 3);
    assert_eq!(locator.line_end(4), 5);
    assert_eq!(locator.full_line_end(4), 6);
    assert_eq!(locator.line_start(6), 6);
    assert_eq!(locator.line_end(6), 6);
    assert_eq!(locator.line_start(8), 7);
    assert_eq!(locator.line_end(8), 10);
    let range = locator.line_range(4);
    assert_eq!((range.start, range.end), (3, 5));
    assert!(locator.contains_line_break(&TextRange::new(0, 4)));
    assert!(!locator.contains_line_break(&TextRange::new(0, 2)));
}

#[test]
fn source_locations_are_one_indexed() {
    let source = "ab\ncd\n";
    let locator = locator_of(source);
    let loc = locator.source_location(4);
    assert_eq!((loc.row, loc.column), (2, 2));
    let loc0 = locator.source_location(0);
    assert_eq!((loc0.row, loc0.column), (1, 1));
    assert_eq!(locator.compute_line_index(5), 2);
}

#[test]
fn message_fields_and_locations() {
    let source = "x = 1\ny: int = 'a'\n";
    let locator = locator_of(source);
    let diag = Diagnostic::new(
        DiagnosticKind {
            error_code: ErrorCode::GeneralTypeError,
            body: String::from("mismatch"),
        },
        TextRange::new(6, 18),
    );
    let file = SourceFile::new(String::from("file.py"), locator);
    let msg = Message::from_diagnostic(diag, file, 6, MessageKind::Warning);
    assert_eq!(msg.filename(), "file.py");
    assert_eq!(msg.kind, MessageKind::Warning);
    let start = msg.compute_start_location();
    assert_eq!((start.row, start.column), (2, 1));
    let end = msg.compute_end_location();
    assert_eq!((end.row, end.column), (2, 13));
}

#[test]
fn messages_order_by_file_then_offset() {
    let mk = |name: &str, start: usize| {
        Message::from_diagnostic(
            Diagnostic::new(
                DiagnosticKind {
                    error_code: ErrorCode::UnusedImport,
                    body: String::from("b"),
                },
                TextRange::new(start, start + 1),
            ),
            SourceFile::new(String::from(name), locator_of("some text\n")),
            start,
            MessageKind::Error,
        )
    };
    let a = mk("a.py", 5);
    let b = mk("b.py", 1);
    let a2 = mk("a.py", 7);
    assert!(message_comes_before(&a, &b));
    assert!(!message_comes_before(&b, &a));
    assert!(message_comes_before(&a, &a2));
    assert!(!message_comes_before(&a2, &a));
}

#[test]
fn diagnostics_become_messages_with_severity() {
    let source = "x = 1\n";
    let locator = locator_of(source);
    let mut table = ErrorCodeTable::empty();
    table.enable_error(ErrorCode::GeneralTypeError);
    table.enable_warning(ErrorCode::UnusedImport);
    let settings = CheckerSettings {
        project_root: String::from("."),
        table,
        per_file_ignores: vec![],
        target_version: PythonVersion::Py312,
        namespace_packages: vec![],
        src: vec![],
    };
    let diags = vec![
        Diagnostic::new(
            DiagnosticKind {
                error_code: ErrorCode::GeneralTypeError,
                body: String::from("a"),
            },
            TextRange::new(0, 1),
        ),
        Diagnostic::new(
            DiagnosticKind {
                error_code: ErrorCode::UnusedImport,
                body: String::from("b"),
            },
            TextRange::new(2, 3),
        ),
    ];
    let messages = diagnostics_to_messages(
        &settings,
        diags,
        &String::from("file.py"),
        &locator,
        &TypeIgnoreMapping::new(),
    );
    assert_eq!(messages.len(), 2);
    assert_eq!(messages[0].kind, MessageKind::Error);
    assert_eq!(messages[1].kind, MessageKind::Warning);
    assert_eq!(messages[0].ignore_offset, 0);
}

#[test]
fn code_table_entries() {
    let mut table = ErrorCodeTable::empty();
    table.enable_error(ErrorCode::SyntaxError);
    table.enable_warning(ErrorCode::UnusedImport);
    assert_eq!(table.entry(ErrorCode::SyntaxError), Some(MessageKind::Error));
    assert_eq!(
        table.entry(ErrorCode::UnusedImport),
        Some(MessageKind::Warning)
    );
    assert_eq!(table.entry(ErrorCode::Override), None);
    assert!(table.any_enabled(&[ErrorCode::Override, ErrorCode::SyntaxError]));
    assert!(!table.any_enabled(&[ErrorCode::Override, ErrorCode::Unreachable]));
    table.disable(ErrorCode::UnusedImport);
    assert_eq!(table.entry(ErrorCode::UnusedImport), None);
    let mut iter = table.iter_enabled();
    assert_eq!(iter.next(), Some(ErrorCode::SyntaxError));
    assert_eq!(iter.next(), None);
}

#[test]
fn rule_table_basics() {
    let mut table = RuleTable::empty();
    assert!(!table.enabled(ErrorCode::Override));
    table.enable(ErrorCode::Override, false);
    assert!(table.enabled(ErrorCode::Override));
    assert!(table.any_enabled(&[ErrorCode::Override]));
    table.disable(ErrorCode::Override);
    assert!(!table.enabled(ErrorCode::Override));
}

#[test]
fn per_file_ignores_match_globs() {
    let entries = vec![
        PerFileIgnore {
            absolute: String::from("**/generated/*.py"),
            basename: String::from("conftest.py"),
            rules: ErrorCodeSet::from_error_codes(&[ErrorCode::UnusedImport]),
        },
    ];
    let checked = resolve_per_file_ignores(entries).unwrap();
    let hits = ignores_from_path(&String::from("pkg/generated/a.py"), &checked);
    assert!(hits.contains(ErrorCode::UnusedImport));
    let hits2 = ignores_from_path(&String::from("conftest.py"), &checked);
    assert!(hits2.contains(ErrorCode::UnusedImport));
    let misses = ignores_from_path(&String::from("pkg/a.py"), &checked);
    assert!(misses.is_empty());
}

#[test]
fn invalid_glob_is_rejected() {
    let entries = vec![PerFileIgnore {
        absolute: String::from("a["),
        basename: String::from("*.py"),
        rules: ErrorCodeSet::empty(),
    }];
    let err = resolve_per_file_ignores(entries).unwrap_err();
    assert_eq!(err.pattern, "a[");
}

#[test]
fn pyproject_lint_reports_bad_toml() {
    let settings = CheckerSettings::for_rule(ErrorCode::InvalidPyprojectToml);
    let messages = lint_pyproject_toml(
        String::from("pyproject.toml"),
        String::from("[tool.broken\nname = \"x\"\n"),
        &settings,
    );
    assert_eq!(messages.len(), 1);
    assert_eq!(
        messages[0].diagnostic.error_code,
        ErrorCode::InvalidPyprojectToml
    );
    assert!(messages[0]
        .diagnostic
        .body
        .starts_with("Failed to parse pyproject.toml: "));
    assert_eq!(messages[0].kind, MessageKind::Error);
}

#[test]
fn pyproject_lint_accepts_good_toml() {
    let settings = CheckerSettings::for_rule(ErrorCode::InvalidPyprojectToml);
    let messages = lint_pyproject_toml(
        String::from("pyproject.toml"),
        String::from("[tool.pyrogen]\nline-length = 79\n"),
        &settings,
    );
    assert!(messages.is_empty());
}

#[test]
fn pyproject_lint_respects_disabled_code() {
    let settings = CheckerSettings::for_rule(ErrorCode::SyntaxError);
    let messages = lint_pyproject_toml(
        String::from("pyproject.toml"),
        String::from("[broken\n"),
        &settings,
    );
    assert!(messages.is_empty());
}

#[test]
fn selectors_parse_and_expand() {
    assert_eq!(
        ErrorCodeSelector::parse(b"ALL"),
        Ok(ErrorCodeSelector::All)
    );
    assert_eq!(
        ErrorCodeSelector::parse(b"override"),
        Ok(ErrorCodeSelector::ErrorCode(ErrorCode::Override))
    );
    assert!(ErrorCodeSelector::parse(b"zzz").is_err());

    assert_eq!(ErrorCodeSelector::All.code(), "ALL");
    assert_eq!(
        ErrorCodeSelector::ErrorCode(ErrorCode::UnusedImport).code(),
        "unused-import"
    );
    assert_eq!(ErrorCodeSelector::All.all_rules().len(), 10);
    assert_eq!(
        ErrorCodeSelector::ErrorCode(ErrorCode::IOError).rules(),
        vec![ErrorCode::IOError]
    );
    assert_eq!(ErrorCodeSelector::All.specificity(), Specificity::All);
    assert_eq!(
        ErrorCodeSelector::ErrorCode(ErrorCode::IOError).specificity(),
        Specificity::Rule
    );

    let mut iter =
        ErrorCodeSelectorIter::new(&ErrorCodeSelector::ErrorCode(ErrorCode::Override));
    assert_eq!(iter.next(), Some(ErrorCode::Override));
    assert_eq!(iter.next(), None);
}

#[test]
fn check_ast_reports_int_mismatches() {
    let stmts = vec![
        PyStmt::AnnAssign(AnnAssignNode {
            range: TextRange::new(0, 12),
            annotation: b"int".to_vec(),
            value: Some(ConstantNodeValue::Str),
        }),
        PyStmt::AnnAssign(AnnAssignNode {
            range: TextRange::new(13, 22),
            annotation: b"int".to_vec(),
            value: Some(ConstantNodeValue::Int),
        }),
        PyStmt::Other,
    ];
    let settings = CheckerSettings::for_rule(ErrorCode::GeneralTypeError);
    let diags = check_ast(&stmts, &settings);
    assert_eq!(diags.len(), 1);
    assert_eq!(
        diags[0].kind.body,
        "Type mismatch: variable is of type int, but value is of type str"
    );
    assert_eq!((diags[0].range.start, diags[0].range.end), (0, 12));

    let off = CheckerSettings::for_rule(ErrorCode::SyntaxError);
    assert!(check_ast(&stmts, &off).is_empty());
}

#[test]
fn type_mismatch_body() {
    let kind = type_mismatch(String::from("int"), String::from("bool"));
    assert_eq!(kind.error_code, ErrorCode::GeneralTypeError);
    assert_eq!(
        kind.body,
        "Type mismatch: variable is of type int, but value is of type bool"
    );
}

#[test]
fn unused_type_ignore_bodies() {
    let blanket = unused_type_ignore(None);
    assert_eq!(blanket.body, "Unused type ignore directive");
    let scoped = unused_type_ignore(Some(&vec![
        ErrorCode::Override,
        ErrorCode::UnusedImport,
    ]));
    assert_eq!(
        scoped.body,
        "Unused type ignore directive, with codes: override, unused-import"
    );
}

#[test]
fn collect_rule_codes_deduplicates_and_sorts() {
    let joined = collect_rule_codes(&vec![
        ErrorCode::UnusedImport,
        ErrorCode::Override,
        ErrorCode::UnusedImport,
    ]);
    assert_eq!(joined, "override, unused-import");
    // Label order, not registry order.
    let joined2 = collect_rule_codes(&vec![
        ErrorCode::UnusedTypeIgnore,
        ErrorCode::SyntaxError,
    ]);
    assert_eq!(joined2, "syntax-error, unused-type-ignore");
}

#[test]
fn configuration_combine_prefers_self() {
    let base = Configuration {
        rule_selections: vec![ErrorCodeSelection {
            error: None,
            extend_error: vec![],
            warning: None,
            extend_warning: vec![],
            ignore: vec![],
        }],
        per_file_ignores: None,
        cache_dir: Some(String::from("base-cache")),
        exclude: None,
        force_exclude: Some(false),
        included: None,
        respect_gitignore: Some(true),
        target_version: Some(PythonVersion::Py310),
        namespace_packages: None,
        src: None,
    };
    let layer = Configuration {
        rule_selections: vec![],
        per_file_ignores: None,
        cache_dir: Some(String::from("layer-cache")),
        exclude: None,
        force_exclude: None,
        included: None,
        respect_gitignore: None,
        target_version: None,
        namespace_packages: None,
        src: None,
    };
    let combined = layer.combine(base);
    assert_eq!(combined.cache_dir, Some(String::from("layer-cache")));
    assert_eq!(combined.force_exclude, Some(false));
    assert_eq!(combined.target_version, Some(PythonVersion::Py310));
    assert_eq!(combined.rule_selections.len(), 1);
}

#[test]
fn defaults_and_simple_values() {
    assert_eq!(default_errors().len(), 3);
    assert_eq!(default_warnings().len(), 2);
    assert_eq!(PythonVersion::latest(), PythonVersion::Py312);
    assert_eq!(PythonVersion::Py311.as_tuple(), (3, 11));
    assert_eq!(PythonVersion::Py310.major(), 3);
    assert_eq!(PythonVersion::Py312.minor(), 12);
    assert_eq!(
        SerializationFormat::default_format(),
        SerializationFormat::Text
    );
    assert!(TypeIgnore::Enabled.is_enabled());
    assert!(!TypeIgnore::Disabled.is_enabled());
    assert!(Cache::Enabled.is_enabled());
    let kind = SourceKind::new(String::from("x = 1\n"));
    assert_eq!(kind.source_code(), "x = 1\n");
    assert_eq!(kind.updated(String::from("y\n")).source_code(), "y\n");
    assert_eq!(MessageKind::Error.as_str(), "error");
    assert_eq!(MessageKind::Warning.as_str(), "warning");
}

fn empty_selection() -> ErrorCodeSelection {
    ErrorCodeSelection {
        error: None,
        extend_error: vec![],
        warning: None,
        extend_warning: vec![],
        ignore: vec![],
    }
}

#[test]
fn rule_table_defaults() {
    let config = Configuration {
        rule_selections: vec![],
        per_file_ignores: None,
        cache_dir: None,
        exclude: None,
        force_exclude: None,
        included: None,
        respect_gitignore: None,
        target_version: None,
        namespace_packages: None,
        src: None,
    };
    let table = config.as_rule_table();
    assert!(table.enabled(ErrorCode::SyntaxError));
    assert!(table.enabled(ErrorCode::GeneralTypeError));
    assert!(table.enabled(ErrorCode::InvalidPyprojectToml));
    assert!(table.enabled(ErrorCode::UnusedVariable));
    assert!(table.is_warning(ErrorCode::UnusedVariable));
    assert!(table.is_warning(ErrorCode::UnusedImport));
    assert!(!table.enabled(ErrorCode::Override));
    assert!(!table.is_warning(ErrorCode::SyntaxError));
}

#[test]
fn rule_table_specific_overrides_all() {
    // Selecting everything as errors while ignoring one specific code
    // leaves that code out: the specific selector wins.
    let selection = ErrorCodeSelection {
        error: Some(vec![ErrorCodeSelector::All]),
        ignore: vec![ErrorCodeSelector::ErrorCode(ErrorCode::Override)],
        ..empty_selection()
    };
    let config = Configuration {
        rule_selections: vec![selection],
        per_file_ignores: None,
        cache_dir: None,
        exclude: None,
        force_exclude: None,
        included: None,
        respect_gitignore: None,
        target_version: None,
        namespace_packages: None,
        src: None,
    };
    let table = config.as_rule_table();
    assert!(table.enabled(ErrorCode::SyntaxError));
    assert!(table.enabled(ErrorCode::UnusedImport));
    assert!(!table.enabled(ErrorCode::Override) || table.is_warning(ErrorCode::Override));
    // The warning defaults are untouched by an error-only selection.
    assert!(table.is_warning(ErrorCode::UnusedVariable));
}

#[test]
fn rule_table_carries_lone_ignores() {
    // A layer naming only ignores hands them to the next layer's selection.
    let lone_ignore = ErrorCodeSelection {
        error: Some(vec![]),
        warning: Some(vec![]),
        ignore: vec![ErrorCodeSelector::ErrorCode(ErrorCode::GeneralTypeError)],
        ..empty_selection()
    };
    let select_all = ErrorCodeSelection {
        error: Some(vec![ErrorCodeSelector::All]),
        ..empty_selection()
    };
    let config = Configuration {
        rule_selections: vec![lone_ignore, select_all],
        per_file_ignores: None,
        cache_dir: None,
        exclude: None,
        force_exclude: None,
        included: None,
        respect_gitignore: None,
        target_version: None,
        namespace_packages: None,
        src: None,
    };
    let table = config.as_rule_table();
    assert!(table.enabled(ErrorCode::SyntaxError));
    assert!(table.enabled(ErrorCode::Override));
    assert!(!table.enabled(ErrorCode::GeneralTypeError));
}

#[test]
fn unreadable_file_reports_io_error() {
    let settings = CheckerSettings::for_rule(ErrorCode::IOError);
    let messages = messages_from_read_error(
        String::from("f.py"),
        String::from("permission denied"),
        &settings,
    );
    assert_eq!(messages.len(), 1);
    assert_eq!(messages[0].diagnostic.error_code, ErrorCode::IOError);
    assert_eq!(messages[0].diagnostic.body, "permission denied");
    assert_eq!(messages[0].filename(), "f.py");
    assert_eq!(messages[0].kind, MessageKind::Error);

    let disabled = CheckerSettings::for_rule(ErrorCode::SyntaxError);
    assert!(messages_from_read_error(
        String::from("f.py"),
        String::from("permission denied"),
        &disabled,
    )
    .is_empty());

    let mut table = ErrorCodeTable::empty();
    table.enable_warning(ErrorCode::IOError);
    let as_warning = CheckerSettings {
        project_root: String::new(),
        table,
        per_file_ignores: vec![],
        target_version: PythonVersion::Py312,
        namespace_packages: vec![],
        src: vec![],
    };
    let warned = messages_from_read_error(
        String::from("f.py"),
        String::from("permission denied"),
        &as_warning,
    );
    assert_eq!(warned.len(), 1);
    assert_eq!(warned[0].kind, MessageKind::Warning);
}
