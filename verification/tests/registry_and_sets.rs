//! The code registry and the bitset over it.

use pyrogen::registry::{ErrorCode, FromCodeError};
use pyrogen::registry::all_error_codes;
use pyrogen::rule_set::ErrorCodeSet;

#[test]
fn check_code_serialization() {
    for error_code in all_error_codes() {
        assert!(
            ErrorCode::from_code_bytes(error_code.to_str().as_bytes()).is_ok(),
            "{error_code:?} could not be round-trip serialized."
        );
    }
}

#[test]
fn rule_size() {
    // The registry's ten codes fit in a single byte.
    assert_eq!(1, std::mem::size_of::<ErrorCode>());
}

#[test]
fn test_all_rules() {
    for rule in all_error_codes() {
        let set = ErrorCodeSet::from_error_code(rule);
        assert!(set.contains(rule));
    }

    let all_rules_set = ErrorCodeSet::from_error_codes(all_error_codes().as_slice());
    let all_rules: Vec<ErrorCode> = all_rules_set.to_vec();
    let expected_rules: Vec<ErrorCode> = all_error_codes();
    assert_eq!(all_rules, expected_rules);
}

#[test]
fn unknown_code_is_rejected() {
    assert_eq!(
        ErrorCode::from_code_bytes(b"no-such-code"),
        Err(FromCodeError::Unknown)
    );
}

#[test]
fn code_display_forms() {
    assert_eq!(ErrorCode::Override.to_str(), "override");
    assert_eq!(ErrorCode::UnusedTypeIgnore.to_str(), "unused-type-ignore");
    assert_eq!(ErrorCode::SyntaxError.to_str(), "syntax-error");
    assert_eq!(ErrorCode::GeneralTypeError.to_str(), "general");
    assert_eq!(
        ErrorCode::InvalidPyprojectToml.to_str(),
        "InvalidPyprojectToml"
    );
}

#[test]
fn empty_set_is_empty() {
    assert!(ErrorCodeSet::empty().is_empty());
    assert_eq!(ErrorCodeSet::empty().len(), 0);
    assert!(!ErrorCodeSet::from_error_code(ErrorCode::SyntaxError).is_empty());
}

#[test]
fn union_of_overlapping_sets() {
    // The union of {SyntaxError, UnusedTypeIgnore} and
    // {UnusedTypeIgnore, GeneralTypeError} holds exactly the three codes.
    let set_1 =
        ErrorCodeSet::from_error_codes(&[ErrorCode::SyntaxError, ErrorCode::UnusedTypeIgnore]);
    let set_2 = ErrorCodeSet::from_error_codes(&[
        ErrorCode::UnusedTypeIgnore,
        ErrorCode::GeneralTypeError,
    ]);
    let union = set_1.union(&set_2);
    assert!(union.contains(ErrorCode::SyntaxError));
    assert!(union.contains(ErrorCode::UnusedTypeIgnore));
    assert!(union.contains(ErrorCode::GeneralTypeError));
    assert!(!union.contains(ErrorCode::UnusedImport));
    assert_eq!(union.len(), 3);
}

#[test]
fn union_is_commutative_on_values() {
    let a = ErrorCodeSet::from_error_codes(&[ErrorCode::Override, ErrorCode::Unreachable]);
    let b = ErrorCodeSet::from_error_codes(&[ErrorCode::Unreachable, ErrorCode::IOError]);
    assert_eq!(a.union(&b).to_vec(), b.union(&a).to_vec());
}

#[test]
fn subtract_self_is_empty() {
    let a = ErrorCodeSet::from_error_codes(&[ErrorCode::Override, ErrorCode::IOError]);
    assert!(a.subtract(&a).is_empty());
}

#[test]
fn subtract_removes_members() {
    let set_1 =
        ErrorCodeSet::from_error_codes(&[ErrorCode::SyntaxError, ErrorCode::UnusedTypeIgnore]);
    let set_2 =
        ErrorCodeSet::from_error_codes(&[ErrorCode::SyntaxError, ErrorCode::Unreachable]);
    let subtract = set_1.subtract(&set_2);
    assert!(subtract.contains(ErrorCode::UnusedTypeIgnore));
    assert!(!subtract.contains(ErrorCode::SyntaxError));
}

#[test]
fn intersects_detects_common_members() {
    let set_1 =
        ErrorCodeSet::from_error_codes(&[ErrorCode::SyntaxError, ErrorCode::UnusedTypeIgnore]);
    assert!(set_1.intersects(&ErrorCodeSet::from_error_codes(&[
        ErrorCode::UnusedTypeIgnore,
        ErrorCode::GeneralTypeError,
    ])));
    assert!(!set_1.intersects(&ErrorCodeSet::from_error_codes(&[
        ErrorCode::UnusedImport,
        ErrorCode::GeneralTypeError,
    ])));
}

#[test]
fn insert_and_remove() {
    let mut set = ErrorCodeSet::empty();
    assert!(!set.contains(ErrorCode::UnusedTypeIgnore));
    set.insert(ErrorCode::UnusedTypeIgnore);
    assert!(set.contains(ErrorCode::UnusedTypeIgnore));
    set.remove(ErrorCode::UnusedTypeIgnore);
    assert!(!set.contains(ErrorCode::UnusedTypeIgnore));
}

#[test]
fn len_equals_iteration_count() {
    let set = ErrorCodeSet::from_error_codes(&[
        ErrorCode::IOError,
        ErrorCode::Override,
        ErrorCode::Override,
        ErrorCode::UndefinedName,
    ]);
    assert_eq!(set.len(), set.to_vec().len());
    assert_eq!(set.len(), 3);
}

#[test]
fn iteration_is_in_ordinal_order() {
    let set = ErrorCodeSet::from_error_codes(&[
        ErrorCode::IOError,
        ErrorCode::Override,
        ErrorCode::UndefinedName,
    ]);
    let mut iter = set.iter();
    assert_eq!(iter.next(), Some(ErrorCode::Override));
    assert_eq!(iter.next(), Some(ErrorCode::UndefinedName));
    assert_eq!(iter.next(), Some(ErrorCode::IOError));
    assert_eq!(iter.next(), None);
}

#[test]
fn round_trip_preserves_the_set() {
    let set = ErrorCodeSet::from_error_codes(&[
        ErrorCode::GeneralTypeError,
        ErrorCode::UnusedImport,
        ErrorCode::SyntaxError,
    ]);
    let round = ErrorCodeSet::from_error_codes(set.to_vec().as_slice());
    assert_eq!(round.to_vec(), set.to_vec());
}

#[test]
fn test_linter_parse_code() {
    for error_code in all_error_codes() {
        let code = error_code.to_str();
        let parsed: ErrorCode = ErrorCode::from_code_bytes(code.as_bytes())
            .unwrap_or_else(|_| panic!("couldn't parse {code:?}"));
        assert_eq!(parsed, error_code);
    }
}
