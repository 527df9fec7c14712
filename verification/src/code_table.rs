//! The rule table consulted on every check: which codes are enabled, and
//! which of the enabled codes report as warnings rather than errors.

use vstd::prelude::*;
use crate::registry::{code_ord, ErrorCode};
use crate::rule_set::{codes_as_set, ErrorCodeSet, ErrorCodeSetIterator};

verus! {

/// Whether a reported finding is an error or a warning.
#[derive(Clone, Copy, Debug, PartialEq, Eq, Structural)]
pub enum MessageKind {
    Error,
    Warning,
}

impl MessageKind {
    /// The display form of the kind.
    pub fn as_str(&self) -> (r: &'static str)
        ensures
            *self == MessageKind::Error ==> r@ == "error"@,
            *self == MessageKind::Warning ==> r@ == "warning"@,
    {
        match self {
            MessageKind::Error => "error",
            MessageKind::Warning => "warning",
        }
    }
}

/// A table to keep track of which error codes are enabled, and at which
/// severity. Codes in `enabled` but not `warning` are errors; codes in
/// neither are inactive.
#[derive(Clone, Copy, Debug)]
pub struct ErrorCodeTable {
    enabled: ErrorCodeSet,
    warning: ErrorCodeSet,
}

impl ErrorCodeTable {
    /// The ordinals of the codes that are checked at all.
    pub closed spec fn enabled_set(self) -> Set<int> {
        self.enabled@
    }

    /// The ordinals of the enabled codes that report as warnings.
    pub closed spec fn warning_set(self) -> Set<int> {
        self.warning@
    }

    /// The severity at which `c` reports, or `None` when it is inactive.
    pub open spec fn spec_entry(self, c: ErrorCode) -> Option<MessageKind> {
        if !self.enabled_set().contains(code_ord(c)) {
            None
        } else if self.warning_set().contains(code_ord(c)) {
            Some(MessageKind::Warning)
        } else {
            Some(MessageKind::Error)
        }
    }

    /// Warnings are a subset of the enabled codes, and both sets name codes
    /// of the registry.
    pub closed spec fn wf(self) -> bool {
        &&& self.warning@.subset_of(self.enabled@)
        &&& self.enabled.wf()
        &&& self.warning.wf()
    }

    /// Creates a new empty error code table.
    pub fn empty() -> (r: Self)
        ensures
            r.enabled_set() == Set::<int>::empty(),
            r.warning_set() == Set::<int>::empty(),
            r.wf(),
    {
        ErrorCodeTable { enabled: ErrorCodeSet::empty(), warning: ErrorCodeSet::empty() }
    }

    /// The table that enables the listed codes as errors.
    pub fn from_error_codes(codes: &[ErrorCode]) -> (r: Self)
        ensures
            r.enabled_set() == codes_as_set(codes@),
            r.warning_set() == Set::<int>::empty(),
            r.wf(),
    {
        ErrorCodeTable {
            enabled: ErrorCodeSet::from_error_codes(codes),
            warning: ErrorCodeSet::empty(),
        }
    }

    /// Returns whether the given rule should be checked.
    pub fn enabled(&self, rule: ErrorCode) -> (r: bool)
        ensures
            r == self.enabled_set().contains(code_ord(rule)),
    {
        self.enabled.contains(rule)
    }

    /// Returns the severity at which `rule` reports, or `None` if inactive.
    pub fn entry(&self, rule: ErrorCode) -> (r: Option<MessageKind>)
        ensures
            r == self.spec_entry(rule),
    {
        if self.enabled(rule) {
            if self.is_warning(rule) {
                Some(MessageKind::Warning)
            } else {
                Some(MessageKind::Error)
            }
        } else {
            None
        }
    }

    /// Returns whether any of the given rules should be checked.
    pub fn any_enabled(&self, rules: &[ErrorCode]) -> (r: bool)
        ensures
            r == exists|j: int|
                0 <= j < rules@.len() && self.enabled_set().contains(code_ord(
                    #[trigger] rules@[j],
                )),
    {
        let r = self.enabled.intersects(&ErrorCodeSet::from_error_codes(rules));
        proof {
            if r {
                let i = choose|i: int|
                    self.enabled@.contains(i) && codes_as_set(rules@).contains(i);
                assert(codes_as_set(rules@).contains(i));
                let j = choose|j: int|
                    0 <= j < rules@.len() && code_ord(#[trigger] rules@[j]) == i;
                assert(self.enabled_set().contains(code_ord(rules@[j])));
            } else {
                assert forall|j: int|
                    0 <= j < rules@.len() implies !self.enabled_set().contains(code_ord(
                    #[trigger] rules@[j],
                )) by {
                    assert(codes_as_set(rules@).contains(code_ord(rules@[j])));
                }
            }
        }
        r
    }

    /// Returns whether violations of the given rule should be a warning.
    pub fn is_warning(&self, rule: ErrorCode) -> (r: bool)
        ensures
            r == self.warning_set().contains(code_ord(rule)),
    {
        self.warning.contains(rule)
    }

    /// Returns an iterator over all enabled rules.
    pub fn iter_enabled(&self) -> (r: ErrorCodeSetIterator)
        requires
            self.wf(),
        ensures
            r.wf(),
            r@ == self.enabled_set(),
    {
        self.enabled.iter()
    }

    /// Returns an iterator over all warnings.
    pub fn iter_warnings(&self) -> (r: ErrorCodeSetIterator)
        requires
            self.wf(),
        ensures
            r.wf(),
            r@ == self.warning_set(),
    {
        self.warning.iter()
    }

    /// Enables the given rule, reporting as an error.
    pub fn enable_error(&mut self, rule: ErrorCode)
        requires
            old(self).wf(),
        ensures
            final(self).wf(),
            final(self).enabled_set() == old(self).enabled_set().insert(code_ord(rule)),
            final(self).warning_set() == old(self).warning_set(),
    {
        self.enabled.insert(rule);
    }

    /// Enables the given rule, reporting as a warning.
    pub fn enable_warning(&mut self, rule: ErrorCode)
        requires
            old(self).wf(),
        ensures
            final(self).wf(),
            final(self).enabled_set() == old(self).enabled_set().insert(code_ord(rule)),
            final(self).warning_set() == old(self).warning_set().insert(code_ord(rule)),
    {
        self.enabled.insert(rule);
        self.warning.insert(rule);
    }

    /// Disables the given rule.
    pub fn disable(&mut self, rule: ErrorCode)
        requires
            old(self).wf(),
        ensures
            final(self).wf(),
            final(self).enabled_set() == old(self).enabled_set().remove(code_ord(rule)),
            final(self).warning_set() == old(self).warning_set().remove(code_ord(rule)),
    {
        self.enabled.remove(rule);
        self.warning.remove(rule);
    }
}

} // verus!
