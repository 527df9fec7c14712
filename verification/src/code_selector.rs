//! Selecting rules in configuration: either every rule, or one code.

use vstd::prelude::*;
use crate::registry::{code_label, ErrorCode};

verus! {

/// A selector in configuration: all error codes, or one of them.
#[derive(Clone, Copy, Debug, PartialEq, Eq, Structural)]
pub enum ErrorCodeSelector {
    /// Select all error codes.
    All,
    /// Select an individual error code.
    ErrorCode(ErrorCode),
}

/// The failure of parsing a selector.
#[derive(Clone, Debug, PartialEq, Eq)]
pub enum ParseError {
    /// The given byte string named no selector.
    Unknown(Vec<u8>),
}

/// How specific a selector is: more specific selectors take precedence.
#[derive(Clone, Copy, Debug, PartialEq, Eq, Structural)]
pub enum Specificity {
    /// The specificity when selecting all rules.
    All,
    /// The specificity when selecting an individual rule.
    Rule,
}

/// How specific a selector is.
pub open spec fn selector_specificity(s: ErrorCodeSelector) -> Specificity {
    match s {
        ErrorCodeSelector::All => Specificity::All,
        ErrorCodeSelector::ErrorCode(_) => Specificity::Rule,
    }
}

/// The codes a selector names, in ordinal order.
pub open spec fn selector_rules(s: ErrorCodeSelector) -> Seq<ErrorCode> {
    match s {
        ErrorCodeSelector::All => Seq::new(
            crate::registry::NUM_ERROR_CODES as nat,
            |j: int| crate::registry::code_of_ord(j),
        ),
        ErrorCodeSelector::ErrorCode(c) => seq![c],
    }
}

impl ErrorCodeSelector {
    /// The display form of the selector.
    pub fn code(&self) -> (r: &'static str)
        ensures
            match self {
                ErrorCodeSelector::All => r@ == "ALL"@,
                ErrorCodeSelector::ErrorCode(c) => r@ == code_label(*c),
            },
    {
        match self {
            ErrorCodeSelector::All => "ALL",
            ErrorCodeSelector::ErrorCode(rule) => rule.to_str(),
        }
    }

    /// Parse a selector from its byte form: the literal `ALL`, or the
    /// display form of one code; `Err` on anything else.
    pub fn parse(s: &[u8]) -> (r: Result<ErrorCodeSelector, ParseError>)
        ensures
            match r {
                Ok(ErrorCodeSelector::All) => s@ == seq![65u8, 76u8, 76u8],
                Ok(ErrorCodeSelector::ErrorCode(c)) => crate::registry::code_bytes(c)
                    == s@,
                Err(ParseError::Unknown(v)) => v@ == s@ && s@ != seq![65u8, 76u8, 76u8]
                    && forall|c: ErrorCode| crate::registry::code_bytes(c) != s@,
            },
    {
        let all_lit: Vec<u8> = vec![65u8, 76u8, 76u8];
        if crate::registry::bytes_equal(s, all_lit.as_slice()) {
            proof {
                assert(all_lit@ =~= seq![65u8, 76u8, 76u8]);
            }
            return Ok(ErrorCodeSelector::All);
        }
        proof {
            assert(all_lit@ =~= seq![65u8, 76u8, 76u8]);
        }
        match ErrorCode::from_code_bytes(s) {
            Ok(c) => Ok(ErrorCodeSelector::ErrorCode(c)),
            Err(_) => {
                let mut name: Vec<u8> = Vec::new();
                let mut i: usize = 0;
                while i < s.len()
                    invariant
                        i <= s@.len(),
                        name@ == s@.take(i as int),
                    decreases s@.len() - i,
                {
                    name.push(s[i]);
                    proof {
                        assert(name@ =~= s@.take(i + 1));
                    }
                    i += 1;
                }
                proof {
                    assert(s@.take(i as int) =~= s@);
                }
                Err(ParseError::Unknown(name))
            },
        }
    }

    /// All rules the selector names, in ordinal order.
    pub fn all_rules(&self) -> (r: Vec<ErrorCode>)
        ensures
            r@ == selector_rules(*self),
    {
        match self {
            ErrorCodeSelector::All => {
                let v = crate::registry::all_error_codes();
                proof {
                    assert(v@ =~= selector_rules(*self));
                }
                v
            },
            ErrorCodeSelector::ErrorCode(rule) => {
                let v: Vec<ErrorCode> = vec![*rule];
                proof {
                    assert(v@ =~= seq![*rule]);
                }
                v
            },
        }
    }

    /// The rules the selector names; identical to [`Self::all_rules`].
    pub fn rules(&self) -> (r: Vec<ErrorCode>)
        ensures
            r@ == selector_rules(*self),
    {
        self.all_rules()
    }

    /// How specific this selector is.
    pub fn specificity(&self) -> (r: Specificity)
        ensures
            r == selector_specificity(*self),
    {
        match self {
            ErrorCodeSelector::All => Specificity::All,
            ErrorCodeSelector::ErrorCode(_) => Specificity::Rule,
        }
    }
}

/// Iterates over the rules a selector names.
pub struct ErrorCodeSelectorIter {
    items: Vec<ErrorCode>,
    pos: usize,
}

impl ErrorCodeSelectorIter {
    /// The codes not yet yielded.
    pub closed spec fn remaining(self) -> Seq<ErrorCode> {
        self.items@.skip(self.pos as int)
    }

    pub closed spec fn wf(self) -> bool {
        self.pos <= self.items@.len()
    }

    /// An iterator over the rules of `selector`.
    pub fn new(selector: &ErrorCodeSelector) -> (r: Self)
        ensures
            r.wf(),
            r.remaining() == selector_rules(*selector),
    {
        let items = selector.all_rules();
        let r = ErrorCodeSelectorIter { items, pos: 0 };
        proof {
            assert(r.remaining() =~= r.items@);
        }
        r
    }

    /// The next rule, or `None` when exhausted.
    pub fn next(&mut self) -> (r: Option<ErrorCode>)
        requires
            old(self).wf(),
        ensures
            final(self).wf(),
            match r {
                Some(c) => old(self).remaining().len() > 0 && c == old(
                    self,
                ).remaining()[0] && final(self).remaining() == old(
                    self,
                ).remaining().drop_first(),
                None => old(self).remaining().len() == 0 && final(self).remaining() == old(
                    self,
                ).remaining(),
            },
    {
        if self.pos < self.items.len() {
            let c = self.items[self.pos];
            self.pos = self.pos + 1;
            proof {
                assert(self.remaining() =~= old(self).remaining().drop_first());
            }
            Some(c)
        } else {
            None
        }
    }
}

} // verus!
