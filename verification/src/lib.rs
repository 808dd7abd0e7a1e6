//! Generation and manipulation of light-weight sequence identifiers: a
//! monotonically increasing counter is rendered as a string over a custom,
//! ordered alphabet (a positional numeral system with custom digit symbols),
//! and identifiers can be re-expressed between two such alphabets without
//! losing their ordinal meaning.

pub mod codec;
pub mod utils;

use crate::codec::{all_in_alphabet, decode_spec, encode_spec, min_encoding, wf_alphabet};
use vstd::prelude::*;

verus! {

/// The default 62-symbol alphabet: digits first, then the lower-case and the
/// upper-case letters.
pub const DEFAULT_CHARACTERS: &'static str =
    "0123456789abcdefghijklmnopqrstuvwxyzABCDEFGHIJKLMNOPQRSTUVWXYZ";

/// The default alphabet is well formed: it has 62 symbols and none of them
/// occurs twice.
pub proof fn lemma_default_alphabet_wf()
    ensures
        wf_alphabet(DEFAULT_CHARACTERS@),
{
    reveal_strlit("0123456789abcdefghijklmnopqrstuvwxyzABCDEFGHIJKLMNOPQRSTUVWXYZ");
}

/// A sequence-identifier generator: a counter together with the alphabet and
/// the minimum length its identifiers are rendered with. Each instance is an
/// independently owned value; a copy evolves independently afterward.
pub struct LightId {
    /// The alphabet, in order of increasing digit value. Must hold at least
    /// two symbols, none of them twice, for the generator's operations.
    pub characters: Vec<char>,
    /// The padding floor: identifiers are left padded with the zero symbol to
    /// at least this many symbols.
    pub min_length: usize,
    status: usize,
}

impl LightId {
    /// The counter: the ordinal position of the current identifier.
    pub closed spec fn count_spec(&self) -> nat {
        self.status as nat
    }

    /// The alphabet, as the sequence of its symbols in digit order.
    pub closed spec fn alphabet(&self) -> Seq<char> {
        self.characters@
    }

    /// The padding floor.
    pub closed spec fn min_spec(&self) -> nat {
        self.min_length as nat
    }

    /// The generator's alphabet is well formed.
    pub open spec fn wf(&self) -> bool {
        wf_alphabet(self.alphabet())
    }

    /// Creates a generator over the default 62-symbol alphabet, with counter
    /// zero and no padding floor.
    pub fn new() -> (r: Self)
        ensures
            r.alphabet() == DEFAULT_CHARACTERS@,
            r.min_spec() == 0,
            r.count_spec() == 0,
            r.wf(),
    {
        proof {
            lemma_default_alphabet_wf();
        }
        LightId { status: 0, characters: crate::utils::chars_vec(DEFAULT_CHARACTERS), min_length: 0 }
    }

    /// Creates a generator over a custom alphabet, with counter zero and no
    /// padding floor.
    pub fn from(characters: &str) -> (r: Self)
        ensures
            r.alphabet() == characters@,
            r.min_spec() == 0,
            r.count_spec() == 0,
    {
        LightId { status: 0, characters: crate::utils::chars_vec(characters), min_length: 0 }
    }

    /// Skips the first `n` identifiers: sets the counter to `n` directly.
    pub fn skip(&mut self, n: usize)
        ensures
            final(self).count_spec() == n,
            final(self).alphabet() == old(self).alphabet(),
            final(self).min_spec() == old(self).min_spec(),
    {
        self.status = n;
    }

    /// Skips identifiers until the provided one: sets the counter to the
    /// count that `id` denotes in the generator's alphabet.
    pub fn last(&mut self, id: &str)
        requires
            old(self).wf(),
            all_in_alphabet(id@, old(self).alphabet()),
            decode_spec(id@, old(self).alphabet()) <= usize::MAX,
        ensures
            final(self).count_spec() == decode_spec(id@, old(self).alphabet()),
            final(self).alphabet() == old(self).alphabet(),
            final(self).min_spec() == old(self).min_spec(),
    {
        self.status = crate::utils::parse_id(id, &self.characters);
    }

    /// Sets the minimum length of the identifiers.
    pub fn min(&mut self, n: usize)
        ensures
            final(self).min_spec() == n,
            final(self).alphabet() == old(self).alphabet(),
            final(self).count_spec() == old(self).count_spec(),
    {
        self.min_length = n;
    }

    /// Sets the alphabet: the possible symbols in order of increasing digit
    /// value. The counter is kept, so the same count is simply reinterpreted
    /// under the new base.
    pub fn chars(&mut self, characters: &str)
        ensures
            final(self).alphabet() == characters@,
            final(self).min_spec() == old(self).min_spec(),
            final(self).count_spec() == old(self).count_spec(),
    {
        self.characters = crate::utils::chars_vec(characters);
    }

    /// Returns an independent copy of the generator.
    pub fn clone(&self) -> (r: Self)
        ensures
            r.alphabet() == self.alphabet(),
            r.min_spec() == self.min_spec(),
            r.count_spec() == self.count_spec(),
    {
        LightId {
            status: self.status,
            characters: self.characters.clone(),
            min_length: self.min_length,
        }
    }

    /// Returns the counter: the ordinal position of the current identifier.
    pub fn count(&self) -> (r: usize)
        ensures
            r as nat == self.count_spec(),
    {
        self.status
    }

    /// Decrements the counter by one, saturating at zero.
    pub fn decrement(&mut self)
        ensures
            final(self).count_spec() == if old(self).count_spec() >= 1 {
                (old(self).count_spec() - 1) as nat
            } else {
                0nat
            },
            final(self).alphabet() == old(self).alphabet(),
            final(self).min_spec() == old(self).min_spec(),
    {
        self.decrement_by(1);
    }

    /// Decrements the counter by `count`, saturating at zero rather than
    /// wrapping.
    pub fn decrement_by(&mut self, count: usize)
        ensures
            final(self).count_spec() == if count as nat <= old(self).count_spec() {
                (old(self).count_spec() - count) as nat
            } else {
                0nat
            },
            final(self).alphabet() == old(self).alphabet(),
            final(self).min_spec() == old(self).min_spec(),
    {
        if count > self.status {
            self.status = 0;
        } else {
            self.status = self.status - count;
        }
    }

    /// Increments the counter by one.
    pub fn increment(&mut self)
        requires
            old(self).count_spec() + 1 <= usize::MAX,
        ensures
            final(self).count_spec() == old(self).count_spec() + 1,
            final(self).alphabet() == old(self).alphabet(),
            final(self).min_spec() == old(self).min_spec(),
    {
        self.increment_by(1);
    }

    /// Increments the counter by `count`.
    pub fn increment_by(&mut self, count: usize)
        requires
            old(self).count_spec() + count <= usize::MAX,
        ensures
            final(self).count_spec() == old(self).count_spec() + count,
            final(self).alphabet() == old(self).alphabet(),
            final(self).min_spec() == old(self).min_spec(),
    {
        self.status = self.status + count;
    }

    /// Returns the current identifier and advances the counter by one: the
    /// primary production operation. Each call yields the identifier of a
    /// strictly greater ordinal than the previous call on the same instance.
    pub fn next(&mut self) -> (r: String)
        requires
            old(self).wf(),
            old(self).count_spec() + 1 <= usize::MAX,
        ensures
            r@ == encode_spec(old(self).count_spec(), old(self).alphabet(), old(self).min_spec()),
            final(self).count_spec() == old(self).count_spec() + 1,
            final(self).alphabet() == old(self).alphabet(),
            final(self).min_spec() == old(self).min_spec(),
    {
        let current = crate::utils::format_id(&self.status, &self.min_length, &self.characters);
        self.status = self.status + 1;
        current
    }

    /// Returns the current identifier: the counter rendered in the alphabet,
    /// left padded with the zero symbol to the minimum length. Does not
    /// mutate the generator.
    pub fn current(&self) -> (r: String)
        requires
            self.wf(),
        ensures
            r@ == encode_spec(self.count_spec(), self.alphabet(), self.min_spec()),
    {
        crate::utils::format_id(&self.status, &self.min_length, &self.characters)
    }

    /// Returns the length of the current identifier without rendering it:
    /// the padding floor, or the number of digits of the counter in the
    /// alphabet's base, whichever is larger.
    pub fn len(&self) -> (r: usize)
        requires
            self.wf(),
        ensures
            r as nat == encode_spec(self.count_spec(), self.alphabet(), self.min_spec()).len(),
    {
        let ghost a = self.characters@;
        let ghost count = self.count_spec();
        if self.status == 0 {
            proof {
                assert(min_encoding(0, a) == seq![a[0]]);
            }
            if self.min_length > 1 {
                return self.min_length;
            }
            return 1;
        }
        let b = self.characters.len();
        let mut digits: usize = 0;
        let mut rem: usize = self.status;
        proof {
            crate::codec::lemma_min_encoding_len_le(count, a);
        }
        while rem > 0
            invariant
                wf_alphabet(a),
                b == a.len(),
                rem > 0 ==> min_encoding(count, a).len() == digits + min_encoding(rem as nat, a).len(),
                rem == 0 ==> min_encoding(count, a).len() == digits,
                digits <= min_encoding(count, a).len(),
                min_encoding(count, a).len() <= usize::MAX,
            decreases rem,
        {
            proof {
                let rem0 = rem as nat;
                let bn = b as nat;
                if rem0 < bn {
                    assert(min_encoding(rem0, a) == seq![a[rem0 as int]]);
                    vstd::arithmetic::div_mod::lemma_basic_div(rem0 as int, bn as int);
                } else {
                    assert(min_encoding(rem0, a) == min_encoding(rem0 / bn, a).push(
                        a[(rem0 % bn) as int],
                    ));
                    vstd::arithmetic::div_mod::lemma_div_is_ordered(
                        bn as int,
                        rem0 as int,
                        bn as int,
                    );
                    vstd::arithmetic::div_mod::lemma_div_by_self(bn as int);
                }
                vstd::arithmetic::div_mod::lemma_div_decreases(rem0 as int, bn as int);
            }
            digits = digits + 1;
            rem = rem / b;
        }
        if self.min_length > digits {
            self.min_length
        } else {
            digits
        }
    }

    /// Returns the identifier of ordinal `n`, without touching the counter.
    pub fn nth(&self, n: usize) -> (r: String)
        requires
            self.wf(),
        ensures
            r@ == encode_spec(n as nat, self.alphabet(), self.min_spec()),
    {
        crate::utils::format_id(&n, &self.min_length, &self.characters)
    }

    /// Returns the ordinal position of the provided identifier.
    pub fn index(&self, id: &str) -> (r: usize)
        requires
            self.wf(),
            all_in_alphabet(id@, self.alphabet()),
            decode_spec(id@, self.alphabet()) <= usize::MAX,
        ensures
            r as nat == decode_spec(id@, self.alphabet()),
    {
        crate::utils::parse_id(id, &self.characters)
    }
}

impl PartialEq for LightId {
    /// Two generators are equal when their counters and their alphabets
    /// agree; the padding floor takes no part in equality.
    fn eq(&self, other: &Self) -> (r: bool) {
        self.status == other.status && crate::utils::chars_eq(&self.characters, &other.characters)
    }
}

impl vstd::std_specs::cmp::PartialEqSpecImpl for LightId {
    open spec fn obeys_eq_spec() -> bool {
        true
    }

    open spec fn eq_spec(&self, other: &Self) -> bool {
        self.count_spec() == other.count_spec() && self.alphabet() == other.alphabet()
    }
}

impl PartialOrd for LightId {
    /// Generators are ordered by their counters alone: a total order over
    /// ordinal position, independent of the identifiers' string form.
    fn partial_cmp(&self, other: &Self) -> (r: Option<core::cmp::Ordering>) {
        if self.status < other.status {
            Some(core::cmp::Ordering::Less)
        } else if self.status == other.status {
            Some(core::cmp::Ordering::Equal)
        } else {
            Some(core::cmp::Ordering::Greater)
        }
    }
}

impl vstd::std_specs::cmp::PartialOrdSpecImpl for LightId {
    open spec fn obeys_partial_cmp_spec() -> bool {
        true
    }

    open spec fn partial_cmp_spec(&self, other: &Self) -> Option<core::cmp::Ordering> {
        if self.count_spec() < other.count_spec() {
            Some(core::cmp::Ordering::Less)
        } else if self.count_spec() == other.count_spec() {
            Some(core::cmp::Ordering::Equal)
        } else {
            Some(core::cmp::Ordering::Greater)
        }
    }
}

/// Re-expresses identifiers between two alphabets without losing their
/// ordinal meaning: an identifier is decoded to its count in the one alphabet
/// and that count is rendered in the other. Immutable with respect to the
/// conversions it performs.
pub struct IdSwitcher {
    source: Vec<char>,
    source_min: usize,
    target: Vec<char>,
    target_min: usize,
}

impl IdSwitcher {
    /// The source alphabet, in digit order.
    pub closed spec fn source_spec(&self) -> Seq<char> {
        self.source@
    }

    /// The padding floor of identifiers rendered in the source alphabet.
    pub closed spec fn source_min_spec(&self) -> nat {
        self.source_min as nat
    }

    /// The target alphabet, in digit order.
    pub closed spec fn target_spec(&self) -> Seq<char> {
        self.target@
    }

    /// The padding floor of identifiers rendered in the target alphabet.
    pub closed spec fn target_min_spec(&self) -> nat {
        self.target_min as nat
    }

    /// Both alphabets are well formed.
    pub open spec fn wf(&self) -> bool {
        wf_alphabet(self.source_spec()) && wf_alphabet(self.target_spec())
    }

    /// Creates a switcher that converts identifiers from a source alphabet to
    /// a target alphabet, with no padding floor on either side.
    pub fn new(source: &str, target: &str) -> (r: Self)
        ensures
            r.source_spec() == source@,
            r.target_spec() == target@,
            r.source_min_spec() == 0,
            r.target_min_spec() == 0,
    {
        IdSwitcher {
            source: crate::utils::chars_vec(source),
            source_min: 0,
            target: crate::utils::chars_vec(target),
            target_min: 0,
        }
    }

    /// Returns an independent copy of the switcher.
    pub fn clone(&self) -> (r: Self)
        ensures
            r.source_spec() == self.source_spec(),
            r.source_min_spec() == self.source_min_spec(),
            r.target_spec() == self.target_spec(),
            r.target_min_spec() == self.target_min_spec(),
    {
        IdSwitcher {
            source: self.source.clone(),
            source_min: self.source_min,
            target: self.target.clone(),
            target_min: self.target_min,
        }
    }

    /// Sets the minimum length of the converted identifiers.
    pub fn min_target(&mut self, n: usize)
        ensures
            final(self).target_min_spec() == n,
            final(self).source_spec() == old(self).source_spec(),
            final(self).source_min_spec() == old(self).source_min_spec(),
            final(self).target_spec() == old(self).target_spec(),
    {
        self.target_min = n;
    }

    /// Sets the minimum length of the source identifiers, as produced by the
    /// reverse conversions.
    pub fn min_source(&mut self, n: usize)
        ensures
            final(self).source_min_spec() == n,
            final(self).source_spec() == old(self).source_spec(),
            final(self).target_spec() == old(self).target_spec(),
            final(self).target_min_spec() == old(self).target_min_spec(),
    {
        self.source_min = n;
    }

    /// Renders an already-known count in the target alphabet.
    pub fn switch_count(&self, id: usize) -> (r: String)
        requires
            wf_alphabet(self.target_spec()),
        ensures
            r@ == encode_spec(id as nat, self.target_spec(), self.target_min_spec()),
    {
        crate::utils::format_id(&id, &self.target_min, &self.target)
    }

    /// Converts an identifier from the source alphabet to the target
    /// alphabet: decodes it to its count in the source alphabet and renders
    /// that count in the target alphabet.
    pub fn switch(&self, id: &str) -> (r: String)
        requires
            self.wf(),
            all_in_alphabet(id@, self.source_spec()),
            decode_spec(id@, self.source_spec()) <= usize::MAX,
        ensures
            r@ == encode_spec(
                decode_spec(id@, self.source_spec()),
                self.target_spec(),
                self.target_min_spec(),
            ),
    {
        self.switch_count(crate::utils::parse_id(id, &self.source))
    }

    /// Renders an already-known count in the source alphabet.
    pub fn switch_count_reverse(&self, id: usize) -> (r: String)
        requires
            wf_alphabet(self.source_spec()),
        ensures
            r@ == encode_spec(id as nat, self.source_spec(), self.source_min_spec()),
    {
        crate::utils::format_id(&id, &self.source_min, &self.source)
    }

    /// Converts an identifier from the target alphabet back to the source
    /// alphabet: decodes it to its count in the target alphabet and renders
    /// that count in the source alphabet.
    pub fn switch_reverse(&self, id: &str) -> (r: String)
        requires
            self.wf(),
            all_in_alphabet(id@, self.target_spec()),
            decode_spec(id@, self.target_spec()) <= usize::MAX,
        ensures
            r@ == encode_spec(
                decode_spec(id@, self.target_spec()),
                self.source_spec(),
                self.source_min_spec(),
            ),
    {
        self.switch_count_reverse(crate::utils::parse_id(id, &self.target))
    }
}

} // verus!
