//! A single-severity rule table: which error codes are enabled at all.

use vstd::prelude::*;
use crate::registry::{code_ord, ErrorCode};
use crate::rule_set::{codes_as_set, ErrorCodeSet, ErrorCodeSetIterator};

verus! {

/// A table to keep track of which error codes are enabled.
#[derive(Clone, Copy, Debug)]
pub struct RuleTable {
    enabled: ErrorCodeSet,
}

impl RuleTable {
    /// The ordinals of the enabled codes.
    pub closed spec fn enabled_set(self) -> Set<int> {
        self.enabled@
    }

    /// The enabled codes name codes of the registry.
    pub closed spec fn wf(self) -> bool {
        self.enabled.wf()
    }

    /// Creates a new empty rule table.
    pub fn empty() -> (r: Self)
        ensures
            r.enabled_set() == Set::<int>::empty(),
            r.wf(),
    {
        RuleTable { enabled: ErrorCodeSet::empty() }
    }

    /// The table that enables the listed codes.
    pub fn from_error_codes(codes: &[ErrorCode]) -> (r: Self)
        ensures
            r.enabled_set() == codes_as_set(codes@),
            r.wf(),
    {
        RuleTable { enabled: ErrorCodeSet::from_error_codes(codes) }
    }

    /// Returns whether the given rule should be checked.
    pub fn enabled(&self, rule: ErrorCode) -> (r: bool)
        ensures
            r == self.enabled_set().contains(code_ord(rule)),
    {
        self.enabled.contains(rule)
    }

    /// Returns whether any of the given rules should be checked.
    pub fn any_enabled(&self, rules: &[ErrorCode]) -> (r: bool)
        ensures
            r == exists|j: int|
                0 <= j < rules@.len() && self.enabled_set().contains(code_ord(
                    #[trigger] rules@[j],
                )),
    {
        let r = self.enabled.intersects(&ErrorCodeSet::from_error_codes(rules));
        proof {
            if r {
                let i = choose|i: int|
                    self.enabled@.contains(i) && codes_as_set(rules@).contains(i);
                assert(codes_as_set(rules@).contains(i));
                let j = choose|j: int|
                    0 <= j < rules@.len() && code_ord(#[trigger] rules@[j]) == i;
                assert(self.enabled_set().contains(code_ord(rules@[j])));
            } else {
                assert forall|j: int|
                    0 <= j < rules@.len() implies !self.enabled_set().contains(code_ord(
                    #[trigger] rules@[j],
                )) by {
                    assert(codes_as_set(rules@).contains(code_ord(rules@[j])));
                }
            }
        }
        r
    }

    /// Returns an iterator over all enabled rules.
    pub fn iter_enabled(&self) -> (r: ErrorCodeSetIterator)
        requires
            self.wf(),
        ensures
            r.wf(),
            r@ == self.enabled_set(),
    {
        self.enabled.iter()
    }

    /// Enables the given rule. The second argument is kept for callers that
    /// record whether violations should be autofixed; it does not affect the
    /// table.
    pub fn enable(&mut self, rule: ErrorCode, _should_fix: bool)
        requires
            old(self).wf(),
        ensures
            final(self).wf(),
            final(self).enabled_set() == old(self).enabled_set().insert(code_ord(rule)),
    {
        self.enabled.insert(rule);
    }

    /// Disables the given rule.
    pub fn disable(&mut self, rule: ErrorCode)
        requires
            old(self).wf(),
        ensures
            final(self).wf(),
            final(self).enabled_set() == old(self).enabled_set().remove(code_ord(rule)),
    {
        self.enabled.remove(rule);
    }
}

} // verus!
