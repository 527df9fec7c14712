//! A fixed-width bitset over the error-code registry, with word-wise set
//! algebra. The mathematical model of a set value is the `Set<int>` of the
//! ordinals whose bits are set.

use vstd::prelude::*;
use vstd::array::ArrayAdditionalExecFns;
use vstd::set_lib::{lemma_int_range, lemma_len_subset, set_int_range};
use crate::registry::{code_ord, ErrorCode, NUM_ERROR_CODES};

verus! {

/// Number of 64-bit words in the bitset.
pub const WORD_COUNT: usize = 11;

/// Number of bit positions the bitset can hold.
pub const BIT_CAPACITY: usize = 704;

/// Whether bit `k` (0 = least significant) of `w` is set.
pub open spec fn word_bit(w: u64, k: u64) -> bool {
    (w >> k) & 1u64 == 1u64
}

/// Number of set bits among the `k` lowest bits of `w`.
pub open spec fn count_low_bits(w: u64, k: nat) -> nat
    decreases k,
{
    if k == 0 {
        0
    } else {
        count_low_bits(w, (k - 1) as nat) + if word_bit(w, (k - 1) as u64) {
            1nat
        } else {
            0nat
        }
    }
}

/// The set of ordinals named by a sequence of codes.
pub open spec fn codes_as_set(codes: Seq<ErrorCode>) -> Set<int> {
    Set::new(|i: int| exists|j: int| 0 <= j < codes.len() && code_ord(#[trigger] codes[j]) == i)
}

/// A set of error codes, stored as a bitset: bit `i` of the word array is
/// set exactly when the code with ordinal `i` is a member.
#[derive(Clone, Copy, Debug, PartialEq, Eq)]
pub struct ErrorCodeSet {
    words: [u64; 11],
}

impl View for ErrorCodeSet {
    type V = Set<int>;

    /// The set of ordinals whose bits are set.
    closed spec fn view(&self) -> Set<int> {
        Set::new(
            |i: int|
                0 <= i < BIT_CAPACITY as int && word_bit(
                    self.words@[i / 64],
                    (i % 64) as u64,
                ),
        )
    }
}

proof fn lemma_bit_or(a: u64, b: u64, k: u64)
    by (bit_vector)
    requires
        k < 64,
    ensures
        ((a | b) >> k) & 1u64 == 1u64 <==> ((a >> k) & 1u64 == 1u64 || (b >> k) & 1u64
            == 1u64),
{
}

proof fn lemma_bit_andnot(a: u64, b: u64, k: u64)
    by (bit_vector)
    requires
        k < 64,
    ensures
        ((a & !b) >> k) & 1u64 == 1u64 <==> ((a >> k) & 1u64 == 1u64 && !((b >> k) & 1u64
            == 1u64)),
{
}

proof fn lemma_bit_and(a: u64, b: u64, k: u64)
    by (bit_vector)
    requires
        k < 64,
    ensures
        ((a & b) >> k) & 1u64 == 1u64 <==> ((a >> k) & 1u64 == 1u64 && (b >> k) & 1u64
            == 1u64),
{
}

proof fn lemma_bit_single(s: u64, k: u64)
    by (bit_vector)
    requires
        s < 64,
        k < 64,
    ensures
        ((1u64 << s) >> k) & 1u64 == 1u64 <==> k == s,
{
}

proof fn lemma_bit_zero_word(k: u64)
    by (bit_vector)
    requires
        k < 64,
    ensures
        !((0u64 >> k) & 1u64 == 1u64),
{
}

proof fn lemma_bit_xor_clear(w: u64, s: u64, k: u64)
    by (bit_vector)
    requires
        s < 64,
        k < 64,
        (w >> s) & 1u64 == 1u64,
    ensures
        ((w ^ (1u64 << s)) >> k) & 1u64 == 1u64 <==> ((w >> k) & 1u64 == 1u64 && k != s),
{
}

proof fn lemma_bit_le_one(w: u64, k: u64)
    by (bit_vector)
    requires
        k < 64,
    ensures
        (w >> k) & 1u64 == 0u64 || (w >> k) & 1u64 == 1u64,
{
}

/// The number of set bits among the `k` lowest bits of `w` is the size of
/// the set of the positions, placed at offset `base`, at which `w` has a set
/// bit.
proof fn lemma_count_low_bits_card(w: u64, base: int, k: nat)
    requires
        k <= 64,
    ensures
        Set::new(|i: int| base <= i < base + k && word_bit(w, (i - base) as u64)).finite(),
        Set::new(|i: int| base <= i < base + k && word_bit(w, (i - base) as u64)).len()
            == count_low_bits(w, k),
    decreases k,
{
    let s = Set::new(|i: int| base <= i < base + k && word_bit(w, (i - base) as u64));
    if k == 0 {
        assert(s =~= Set::<int>::empty());
    } else {
        let prev = Set::new(
            |i: int| base <= i < base + (k - 1) && word_bit(w, (i - base) as u64),
        );
        lemma_count_low_bits_card(w, base, (k - 1) as nat);
        if word_bit(w, (k - 1) as u64) {
            assert(s =~= prev.insert(base + k - 1));
        } else {
            assert(s =~= prev);
        }
    }
}

/// Count the set bits of one word.
fn word_popcount(w: u64) -> (r: u64)
    ensures
        r == count_low_bits(w, 64),
        r <= 64,
{
    let mut count: u64 = 0;
    let mut k: u64 = 0;
    while k < 64
        invariant
            k <= 64,
            count == count_low_bits(w, k as nat),
            count <= k,
        decreases 64 - k,
    {
        proof {
            lemma_bit_le_one(w, k);
        }
        count = count + ((w >> k) & 1u64);
        k = k + 1;
    }
    count
}

impl ErrorCodeSet {
    /// Every member's ordinal names a code of the registry.
    pub open spec fn wf(self) -> bool {
        forall|i: int| self@.contains(i) ==> 0 <= i < NUM_ERROR_CODES as int
    }

    /// The model is always a finite set of at most `BIT_CAPACITY` ordinals.
    pub proof fn lemma_view_finite(self)
        ensures
            self@.finite(),
            self@.len() <= BIT_CAPACITY as int,
    {
        lemma_int_range(0, BIT_CAPACITY as int);
        lemma_len_subset(self@, set_int_range(0, BIT_CAPACITY as int));
    }

    /// Returns an empty error code set.
    pub fn empty() -> (r: Self)
        ensures
            r@ == Set::<int>::empty(),
            r.wf(),
    {
        let r = ErrorCodeSet { words: [0u64; 11] };
        proof {
            assert forall|i: int| !r@.contains(i) by {
                if 0 <= i < BIT_CAPACITY as int {
                    lemma_bit_zero_word((i % 64) as u64);
                }
            }
            assert(r@ =~= Set::<int>::empty());
        }
        r
    }

    /// Removes every code from the set.
    pub fn clear(&mut self)
        ensures
            final(self)@ == Set::<int>::empty(),
            final(self).wf(),
    {
        *self = Self::empty();
    }

    /// The set holding exactly `error_code`.
    pub fn from_error_code(error_code: ErrorCode) -> (r: Self)
        ensures
            r@ == Set::<int>::empty().insert(code_ord(error_code)),
            r.wf(),
    {
        let ord = error_code.as_u16();
        let index = (ord / 64) as usize;
        let shift = (ord % 64) as u64;
        let mask: u64 = 1u64 << shift;
        let mut words: [u64; 11] = [0u64; 11];
        words[index] = mask;
        let r = ErrorCodeSet { words };
        proof {
            assert forall|i: int| r@.contains(i) <==> i == code_ord(error_code) by {
                if 0 <= i < BIT_CAPACITY as int {
                    if i / 64 == index as int {
                        lemma_bit_single(shift, (i % 64) as u64);
                    } else {
                        lemma_bit_zero_word((i % 64) as u64);
                    }
                }
            }
            assert(r@ =~= Set::<int>::empty().insert(code_ord(error_code)));
        }
        r
    }

    /// The set holding exactly the listed codes.
    pub fn from_error_codes(error_codes: &[ErrorCode]) -> (r: Self)
        ensures
            r@ == codes_as_set(error_codes@),
            r.wf(),
    {
        let mut set = ErrorCodeSet::empty();
        let mut i: usize = 0;
        while i < error_codes.len()
            invariant
                i <= error_codes@.len(),
                set@ == codes_as_set(error_codes@.take(i as int)),
                set.wf(),
            decreases error_codes@.len() - i,
        {
            let ghost prefix = error_codes@.take(i as int);
            set = set.union(&ErrorCodeSet::from_error_code(error_codes[i]));
            proof {
                let next = error_codes@.take(i + 1 as int);
                assert forall|j: int|
                    set@.contains(j) <==> codes_as_set(next).contains(j) by {
                    if codes_as_set(next).contains(j) {
                        let w = choose|w: int|
                            0 <= w < next.len() && code_ord(#[trigger] next[w]) == j;
                        if w < i {
                            assert(prefix[w] == next[w]);
                            assert(codes_as_set(prefix).contains(j));
                        } else {
                            assert(next[w] == error_codes@[i as int]);
                        }
                    }
                    if codes_as_set(prefix).contains(j) {
                        let w = choose|w: int|
                            0 <= w < prefix.len() && code_ord(#[trigger] prefix[w]) == j;
                        assert(next[w] == prefix[w]);
                        assert(codes_as_set(next).contains(j));
                    }
                    if j == code_ord(error_codes@[i as int]) {
                        assert(next[i as int] == error_codes@[i as int]);
                        assert(codes_as_set(next).contains(j));
                    }
                }
                assert(set@ =~= codes_as_set(next));
            }
            i += 1;
        }
        proof {
            assert(error_codes@.take(i as int) =~= error_codes@);
        }
        set
    }

    /// Returns the union of the two sets `self` and `other`.
    #[must_use]
    pub fn union(self, other: &Self) -> (r: Self)
        ensures
            r@ == self@.union(other@),
    {
        let mut out = self;
        let mut i: usize = 0;
        while i < WORD_COUNT
            invariant
                i <= WORD_COUNT,
                out.words@.len() == WORD_COUNT,
                forall|j: int|
                    0 <= j < i ==> out.words@[j] == (self.words@[j] | other.words@[j]),
                forall|j: int| i <= j < WORD_COUNT ==> out.words@[j] == self.words@[j],
            decreases WORD_COUNT - i,
        {
            out.words[i] = out.words[i] | other.words[i];
            i += 1;
        }
        proof {
            assert forall|p: int|
                out@.contains(p) <==> (self@.contains(p) || other@.contains(p)) by {
                if 0 <= p < BIT_CAPACITY as int {
                    lemma_bit_or(self.words@[p / 64], other.words@[p / 64], (p % 64) as u64);
                }
            }
            assert(out@ =~= self@.union(other@));
        }
        out
    }

    /// Returns `self` without any of the codes contained in `other`.
    #[must_use]
    pub fn subtract(self, other: &Self) -> (r: Self)
        ensures
            r@ == self@.difference(other@),
    {
        let mut out = self;
        let mut i: usize = 0;
        while i < WORD_COUNT
            invariant
                i <= WORD_COUNT,
                out.words@.len() == WORD_COUNT,
                forall|j: int|
                    0 <= j < i ==> out.words@[j] == (self.words@[j] & !other.words@[j]),
                forall|j: int| i <= j < WORD_COUNT ==> out.words@[j] == self.words@[j],
            decreases WORD_COUNT - i,
        {
            out.words[i] = out.words[i] & !other.words[i];
            i += 1;
        }
        proof {
            assert forall|p: int|
                out@.contains(p) <==> (self@.contains(p) && !other@.contains(p)) by {
                if 0 <= p < BIT_CAPACITY as int {
                    lemma_bit_andnot(self.words@[p / 64], other.words@[p / 64], (p % 64) as u64);
                }
            }
            assert(out@ =~= self@.difference(other@));
        }
        out
    }

    /// Returns true if `self` and `other` contain at least one common code.
    pub fn intersects(&self, other: &Self) -> (r: bool)
        ensures
            r == !self@.disjoint(other@),
    {
        let mut i: usize = 0;
        while i < WORD_COUNT
            invariant
                i <= WORD_COUNT,
                forall|j: int| 0 <= j < i ==> (self.words@[j] & other.words@[j]) == 0u64,
            decreases WORD_COUNT - i,
        {
            let both = self.words[i] & other.words[i];
            if both != 0u64 {
                let bit = (both.trailing_zeros() as u64);
                proof {
                    vstd::std_specs::bits::axiom_u64_trailing_zeros(both);
                    assert(bit < 64);
                    assert((both >> bit) & 1u64 == 1u64);
                    lemma_bit_and(self.words@[i as int], other.words@[i as int], bit);
                    let p = i as int * 64 + bit as int;
                    assert(p / 64 == i as int && p % 64 == bit as int) by (nonlinear_arith)
                        requires
                            0 <= i < WORD_COUNT,
                            bit < 64,
                            p == i as int * 64 + bit as int,
                    ;
                    assert(self@.contains(p) && other@.contains(p));
                }
                return true;
            }
            i += 1;
        }
        proof {
            assert forall|p: int| self@.contains(p) implies !other@.contains(p) by {
                if other@.contains(p) {
                    lemma_bit_and(self.words@[p / 64], other.words@[p / 64], (p % 64) as u64);
                    let w = self.words@[p / 64] & other.words@[p / 64];
                    let k = (p % 64) as u64;
                    assert(w != 0u64) by (bit_vector)
                        requires
                            (w >> k) & 1u64 == 1u64,
                    ;
                }
            }
        }
        false
    }

    /// Returns `true` if this set contains no codes.
    pub fn is_empty(&self) -> (r: bool)
        ensures
            r == (self@ == Set::<int>::empty()),
    {
        let n = self.len();
        proof {
            self.lemma_view_finite();
            if self@.len() == 0 {
                self@.lemma_len0_is_empty();
            }
            if self@ == Set::<int>::empty() {
                assert(self@.len() == 0);
            }
        }
        n == 0
    }

    /// Returns the number of codes in this set.
    pub fn len(&self) -> (r: usize)
        ensures
            r == self@.len(),
    {
        let mut total: u64 = 0;
        let mut i: usize = 0;
        proof {
            assert(Set::new(
                |p: int| 0 <= p < 0 && word_bit(self.words@[p / 64], (p % 64) as u64),
            ) =~= Set::<int>::empty());
        }
        while i < WORD_COUNT
            invariant
                i <= WORD_COUNT,
                total <= 64 * i,
                Set::new(
                    |p: int|
                        0 <= p < 64 * i && word_bit(self.words@[p / 64], (p % 64) as u64),
                ).finite(),
                total == Set::new(
                    |p: int|
                        0 <= p < 64 * i && word_bit(self.words@[p / 64], (p % 64) as u64),
                ).len(),
            decreases WORD_COUNT - i,
        {
            let ghost prev = Set::new(
                |p: int| 0 <= p < 64 * i && word_bit(self.words@[p / 64], (p % 64) as u64),
            );
            let c = word_popcount(self.words[i]);
            proof {
                let w = self.words@[i as int];
                let base = 64 * i as int;
                let piece = Set::new(
                    |p: int| base <= p < base + 64 && word_bit(w, (p - base) as u64),
                );
                lemma_count_low_bits_card(w, base, 64);
                let next = Set::new(
                    |p: int|
                        0 <= p < 64 * (i + 1) && word_bit(
                            self.words@[p / 64],
                            (p % 64) as u64,
                        ),
                );
                assert forall|p: int| piece.contains(p) implies next.contains(p)
                    && !prev.contains(p) by {
                    assert(p / 64 == i as int && p % 64 == p - base) by (nonlinear_arith)
                        requires
                            base == 64 * i as int,
                            base <= p < base + 64,
                    ;
                }
                assert forall|p: int| next.contains(p) implies piece.contains(p)
                    || prev.contains(p) by {
                    if p >= base {
                        assert(p / 64 == i as int && p % 64 == p - base) by (nonlinear_arith)
                            requires
                                base == 64 * i as int,
                                base <= p < base + 64,
                        ;
                    }
                }
                assert(next =~= prev.union(piece));
                assert(prev.disjoint(piece));
                vstd::set_lib::lemma_set_disjoint_lens(prev, piece);
            }
            total = total + c;
            i += 1;
        }
        proof {
            assert(Set::new(
                |p: int|
                    0 <= p < 64 * WORD_COUNT && word_bit(self.words@[p / 64], (p % 64) as u64),
            ) =~= self@);
            self.lemma_view_finite();
        }
        total as usize
    }

    /// Inserts `rule` into the set.
    pub fn insert(&mut self, rule: ErrorCode)
        ensures
            final(self)@ == old(self)@.insert(code_ord(rule)),
    {
        let set = *self;
        *self = set.union(&ErrorCodeSet::from_error_code(rule));
        proof {
            assert(self@ =~= old(self)@.insert(code_ord(rule)));
        }
    }

    /// Removes `rule` from the set.
    pub fn remove(&mut self, rule: ErrorCode)
        ensures
            final(self)@ == old(self)@.remove(code_ord(rule)),
    {
        let set = *self;
        *self = set.subtract(&ErrorCodeSet::from_error_code(rule));
        proof {
            assert(self@ =~= old(self)@.remove(code_ord(rule)));
        }
    }

    /// Returns `true` if `rule` is in this set.
    pub fn contains(&self, rule: ErrorCode) -> (r: bool)
        ensures
            r == self@.contains(code_ord(rule)),
    {
        let ord = rule.as_u16();
        let index = (ord / 64) as usize;
        let shift = (ord % 64) as u64;
        let mask: u64 = 1u64 << shift;
        let w = self.words[index];
        proof {
            let r = (w & mask) != 0u64;
            assert(((w & (1u64 << shift)) != 0u64) == ((w >> shift) & 1u64 == 1u64))
                by (bit_vector)
                requires
                    shift < 64,
            ;
        }
        (w & mask) != 0u64
    }

    /// Returns an iterator over the codes in this set, in ordinal order.
    pub fn iter(&self) -> (r: ErrorCodeSetIterator)
        requires
            self.wf(),
        ensures
            r.wf(),
            r@ == self@,
    {
        ErrorCodeSetIterator { set: self.clone(), index: 0 }
    }

    /// The codes of this set, in ascending ordinal order.
    pub fn to_vec(&self) -> (r: Vec<ErrorCode>)
        requires
            self.wf(),
        ensures
            r@.len() == self@.len(),
            forall|j: int|
                0 <= j < r@.len() ==> self@.contains(code_ord(#[trigger] r@[j])),
            forall|i: int|
                self@.contains(i) ==> exists|j: int|
                    0 <= j < r@.len() && code_ord(#[trigger] r@[j]) == i,
            forall|j: int, k: int|
                0 <= j < k < r@.len() ==> code_ord(r@[j]) < code_ord(r@[k]),
    {
        let mut iter = self.iter();
        let mut out: Vec<ErrorCode> = Vec::new();
        proof {
            self.lemma_view_finite();
        }
        loop
            invariant
                iter.wf(),
                iter@.finite(),
                iter@.subset_of(self@),
                out@.len() + iter@.len() == self@.len(),
                forall|j: int|
                    0 <= j < out@.len() ==> self@.contains(code_ord(#[trigger] out@[j])),
                forall|i: int|
                    self@.contains(i) ==> iter@.contains(i) || exists|j: int|
                        0 <= j < out@.len() && code_ord(#[trigger] out@[j]) == i,
                forall|j: int, k: int|
                    0 <= j < k < out@.len() ==> code_ord(out@[j]) < code_ord(out@[k]),
                forall|j: int, i: int|
                    0 <= j < out@.len() && iter@.contains(i) ==> code_ord(out@[j]) < i,
            decreases iter@.len(),
        {
            let ghost before = iter@;
            match iter.next() {
                Some(code) => {
                    proof {
                        vstd::set_lib::lemma_set_remove_finite_iff(before, code_ord(code));
                    }
                    let ghost old_out = out@;
                    out.push(code);
                    proof {
                        assert forall|i: int|
                            self@.contains(i) implies iter@.contains(i) || exists|j: int|
                            0 <= j < out@.len() && code_ord(#[trigger] out@[j]) == i by {
                            if !iter@.contains(i) {
                                if i == code_ord(code) {
                                    assert(out@[out@.len() - 1] == code);
                                } else if !before.contains(i) {
                                    let j = choose|j: int|
                                        0 <= j < old_out.len() && code_ord(
                                            #[trigger] old_out[j],
                                        ) == i;
                                    assert(out@[j] == old_out[j]);
                                }
                            }
                        }
                    }
                },
                None => {
                    return out;
                },
            }
        }
    }
}

/// Iterates over a set's codes in ascending ordinal order by scanning for
/// the lowest set bit and clearing it.
pub struct ErrorCodeSetIterator {
    set: ErrorCodeSet,
    index: usize,
}

impl View for ErrorCodeSetIterator {
    type V = Set<int>;

    /// The ordinals not yet yielded.
    closed spec fn view(&self) -> Set<int> {
        self.set@
    }
}

impl ErrorCodeSetIterator {
    /// The remaining codes are codes of the registry, and every word before
    /// the scan position has been exhausted.
    pub closed spec fn wf(self) -> bool {
        &&& self.set.wf()
        &&& self.index <= WORD_COUNT
        &&& forall|j: int| 0 <= j < self.index ==> self.set.words@[j] == 0u64
    }

    /// Yields the smallest remaining ordinal's code, or `None` when the set
    /// is exhausted.
    pub fn next(&mut self) -> (r: Option<ErrorCode>)
        requires
            old(self).wf(),
        ensures
            final(self).wf(),
            match r {
                Some(c) => old(self)@.contains(code_ord(c)) && (forall|i: int|
                    old(self)@.contains(i) ==> code_ord(c) <= i) && final(self)@ == old(
                    self,
                )@.remove(code_ord(c)),
                None => old(self)@ == Set::<int>::empty() && final(self)@ == old(self)@,
            },
    {
        loop
            invariant
                self.wf(),
                self@ == old(self)@,
                self.set == old(self).set,
            decreases WORD_COUNT - self.index,
        {
            if self.index >= WORD_COUNT {
                proof {
                    assert forall|i: int| !self@.contains(i) by {
                        if 0 <= i < BIT_CAPACITY as int {
                            lemma_bit_zero_word((i % 64) as u64);
                        }
                    }
                    assert(self@ =~= Set::<int>::empty());
                }
                return None;
            }
            let w = self.set.words[self.index];
            let tz = w.trailing_zeros();
            proof {
                vstd::std_specs::bits::axiom_u64_trailing_zeros(w);
            }
            let bit = tz as u64;
            if bit < 64 {
                proof {
                    assert((w >> bit) & 1u64 == 1u64);
                }
                let ordinal = (self.index as u64) * 64 + bit;
                proof {
                    let p = self.index as int * 64 + bit as int;
                    assert(p / 64 == self.index as int && p % 64 == bit as int)
                        by (nonlinear_arith)
                        requires
                            0 <= self.index < WORD_COUNT,
                            bit < 64,
                            p == self.index as int * 64 + bit as int,
                    ;
                    assert(self@.contains(p));
                    assert(p < NUM_ERROR_CODES as int);
                }
                let code = ErrorCode::from_u16(ordinal as u16);
                let ghost p = ordinal as int;
                proof {
                    crate::registry::lemma_code_ord_bijective();
                    assert(code_ord(code) == p);
                    // The yielded ordinal is minimal: smaller ordinals lie in
                    // this word below `bit` or in an exhausted earlier word.
                    assert forall|i: int| self@.contains(i) implies p <= i by {
                        if i < p {
                            if i / 64 < self.index as int {
                                lemma_bit_zero_word((i % 64) as u64);
                            } else {
                                assert(i / 64 == self.index as int && i % 64 < bit as int)
                                    by (nonlinear_arith)
                                    requires
                                        0 <= i < p,
                                        p == self.index as int * 64 + bit as int,
                                        bit < 64,
                                        i / 64 >= self.index as int,
                                        i % 64 == i - 64 * (i / 64),
                                ;
                            }
                        }
                    }
                }
                let ghost old_set = self@;
                let mask: u64 = 1u64 << bit;
                let cleared = w ^ mask;
                self.set.words[self.index] = cleared;
                proof {
                    assert forall|i: int|
                        self@.contains(i) <==> (old_set.contains(i) && i != p) by {
                        if 0 <= i < BIT_CAPACITY as int {
                            if i / 64 == self.index as int {
                                lemma_bit_xor_clear(w, bit, (i % 64) as u64);
                                if i != p {
                                    assert((i % 64) as u64 != bit) by (nonlinear_arith)
                                        requires
                                            i / 64 == self.index as int,
                                            p == self.index as int * 64 + bit as int,
                                            i != p,
                                            i % 64 == i - 64 * (i / 64),
                                    ;
                                }
                            }
                        }
                    }
                    assert(self@ =~= old_set.remove(p));
                }
                return Some(code);
            }
            proof {
                assert(w == 0u64);
            }
            self.index += 1;
        }
    }
}

} // verus!
