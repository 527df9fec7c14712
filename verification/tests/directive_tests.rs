//! Parsing of suppression directive comments.

use pyrogen::type_ignore::{Directive, ParseError};

fn extract(source: &str) -> Result<Option<Directive>, ParseError> {
    Directive::try_extract(source.as_bytes(), 0, source.len())
}

fn expect_all(source: &str, start: usize, end: usize) {
    match extract(source) {
        Ok(Some(Directive::All(a))) => {
            assert_eq!(a.range.start, start);
            assert_eq!(a.range.end, end);
        }
        other => panic!("expected a blanket directive, got {:?}", other),
    }
}

fn expect_codes(source: &str, start: usize, end: usize, codes: &[&str]) {
    match extract(source) {
        Ok(Some(Directive::Codes(c))) => {
            assert_eq!(c.range.start, start);
            assert_eq!(c.range.end, end);
            let got: Vec<&[u8]> = c.codes.iter().map(|v| v.as_slice()).collect();
            let want: Vec<&[u8]> = codes.iter().map(|s| s.as_bytes()).collect();
            assert_eq!(got, want);
        }
        other => panic!("expected a scoped directive, got {:?}", other),
    }
}

#[test]
fn ignore_all() {
    expect_all("# type: ignore", 0, 14);
}

#[test]
fn noqa_code() {
    expect_codes("# type: ignore[unreachable]", 0, 26, &["unreachable"]);
}

#[test]
fn noqa_codes() {
    expect_codes(
        "# type: ignore[unreachable,override]",
        0,
        35,
        &["unreachable", "override"],
    );
}

#[test]
fn noqa_all_case_insensitive() {
    expect_all("# TYPE: IGNORE", 0, 14);
}

#[test]
fn noqa_code_case_insensitive() {
    expect_codes("# TYPE: IGNORE[override]", 0, 23, &["override"]);
}

#[test]
fn noqa_codes_case_insensitive() {
    expect_codes(
        "# TYPE: IGNORE[override , unreachable]",
        0,
        37,
        &["override", "unreachable"],
    );
}

#[test]
fn noqa_leading_space() {
    expect_codes("#   # type: ignore[override]", 4, 27, &["override"]);
}

#[test]
fn noqa_trailing_space() {
    expect_codes("# type: ignore[override]   ", 0, 23, &["override"]);
}

#[test]
fn noqa_all_no_space() {
    expect_all("#type:ignore", 0, 12);
}

#[test]
fn noqa_code_no_space() {
    expect_codes("#type:ignore[override]", 0, 21, &["override"]);
}

#[test]
fn noqa_codes_no_space() {
    expect_codes(
        "#type:ignore[override,unreachable]",
        0,
        33,
        &["override", "unreachable"],
    );
}

#[test]
fn noqa_all_multi_space() {
    expect_all("#  type:  ignore", 0, 16);
}

#[test]
fn noqa_code_multi_space() {
    expect_codes("#  type:  ignore[override]", 0, 25, &["override"]);
}

#[test]
fn noqa_codes_multi_space() {
    expect_codes(
        "#  type:  ignore[ override  , unreachable]",
        0,
        41,
        &["override", "unreachable"],
    );
}

#[test]
fn noqa_all_leading_comment() {
    expect_all("# Comment describing the ignore # type: ignore", 32, 46);
}

#[test]
fn noqa_code_leading_comment() {
    expect_codes(
        "# Comment describing the ignore # type: ignore[override]",
        32,
        55,
        &["override"],
    );
}

#[test]
fn noqa_codes_leading_comment() {
    expect_codes(
        "# Comment describing the ignore # type: ignore[override,unreachable]",
        32,
        67,
        &["override", "unreachable"],
    );
}

#[test]
fn noqa_all_trailing_comment() {
    expect_all("# type: ignore # Comment describing the ignore", 0, 14);
}

#[test]
fn noqa_code_trailing_comment() {
    expect_codes(
        "# type: ignore[override] # Comment describing the ignore",
        0,
        23,
        &["override"],
    );
}

#[test]
fn noqa_codes_trailing_comment() {
    expect_codes(
        "# type: ignore[override,unreachable] # Comment describing the noqa",
        0,
        35,
        &["override", "unreachable"],
    );
}

#[test]
fn noqa_invalid_codes() {
    assert_eq!(
        extract("# type: ignore[code with spaces]"),
        Err(ParseError::MissingComma)
    );
}

#[test]
fn noqa_open_bracket() {
    assert_eq!(
        extract("# type: ignore[override"),
        Err(ParseError::NoClosingBracket)
    );
}

#[test]
fn noqa_empty_open_bracket() {
    assert_eq!(
        extract("# type: ignore[  "),
        Err(ParseError::NoClosingBracket)
    );
}

#[test]
fn noqa_empty_bracket() {
    assert_eq!(extract("# type: ignore[  ]"), Err(ParseError::MissingCodes));
}

#[test]
fn noqa_invalid_suffix() {
    assert_eq!(extract("# type: ignorea"), Ok(None));
}

#[test]
fn noqa_typo() {
    assert_eq!(extract("# type: ignoe"), Ok(None));
}

#[test]
fn noqa_invalid_suffix_with_space() {
    assert_eq!(
        extract("# type: ignore a"),
        Err(ParseError::InvalidSuffix)
    );
}

#[test]
fn pyrogen_exemption_all() {
    expect_all("# type: ignore", 0, 14);
}

#[test]
fn pyrogen_exemption_all_no_space() {
    expect_all("#type:ignore", 0, 12);
}

#[test]
fn pyrogen_exemption_codes() {
    expect_codes(
        "# type: ignore[override,unreachable]",
        0,
        35,
        &["override", "unreachable"],
    );
}

#[test]
fn pyrogen_exemption_all_case_insensitive() {
    expect_all("# type: IgNoRe", 0, 14);
}

#[test]
fn noqa_unicode_whitespace_blanket() {
    expect_all("#\u{a0}type:\u{a0}ignore", 0, 16);
}

#[test]
fn noqa_unicode_whitespace_scoped() {
    expect_codes("# type:\u{3000}ignore[override]", 0, 25, &["override"]);
}

#[test]
fn noqa_unicode_whitespace_in_brackets() {
    expect_codes("# type: ignore[\u{2003}override\u{2003}]", 0, 29, &["override"]);
}
