//! The executable numeral codec: rendering a count as an identifier string
//! and parsing an identifier string back to its count.

use crate::codec::{all_in_alphabet, decode_spec, encode_spec, min_encoding, pos_of, wf_alphabet};
use vstd::arithmetic::div_mod::{
    lemma_basic_div, lemma_div_by_self, lemma_div_decreases, lemma_div_is_ordered, lemma_small_mod,
};
use vstd::prelude::*;
use vstd::string::StrSliceExecFns;

verus! {

/// Finds the position of symbol `c` in the alphabet `chars`.
fn position_of(chars: &Vec<char>, c: char) -> (r: usize)
    requires
        wf_alphabet(chars@),
        chars@.contains(c),
    ensures
        r < chars@.len(),
        chars@[r as int] == c,
        r as nat == pos_of(chars@, c),
{
    let n = chars.len();
    let mut i: usize = 0;
    while i < n
        invariant
            i <= n,
            n == chars@.len(),
            wf_alphabet(chars@),
            chars@.contains(c),
            forall|j: int| 0 <= j < i ==> chars@[j] != c,
        decreases n - i,
    {
        if chars[i] == c {
            proof {
                crate::codec::lemma_pos_of_index(chars@, i as int);
            }
            return i;
        }
        i += 1;
    }
    proof {
        let k = choose|k: int| 0 <= k < chars@.len() && chars@[k] == c;
        assert(chars@[k] != c);
    }
    0
}

/// Collects the characters of `s` into a vector, in order.
pub(crate) fn chars_vec(s: &str) -> (r: Vec<char>)
    ensures
        r@ == s@,
{
    let n = s.unicode_len();
    let mut r: Vec<char> = Vec::new();
    let mut i: usize = 0;
    while i < n
        invariant
            i <= n,
            n == s@.len(),
            r@ == s@.take(i as int),
        decreases n - i,
    {
        let c = s.get_char(i);
        r.push(c);
        proof {
            assert(r@ =~= s@.take(i + 1));
        }
        i += 1;
    }
    proof {
        assert(s@.take(n as int) =~= s@);
    }
    r
}

/// Compares two character vectors element by element.
pub(crate) fn chars_eq(x: &Vec<char>, y: &Vec<char>) -> (r: bool)
    ensures
        r == (x@ == y@),
{
    if x.len() != y.len() {
        return false;
    }
    let n = x.len();
    let mut i: usize = 0;
    while i < n
        invariant
            i <= n,
            n == x@.len(),
            n == y@.len(),
            forall|j: int| 0 <= j < i ==> x@[j] == y@[j],
        decreases n - i,
    {
        if x[i] != y[i] {
            return false;
        }
        i += 1;
    }
    proof {
        assert(x@ =~= y@);
    }
    true
}

/// Relies on String::push: appends exactly the given character.
#[verifier::external_body]
fn push_char(s: &mut String, c: char)
    ensures
        final(s)@ == old(s)@.push(c),
{
    s.push(c);
}

/// Reversing a sequence after a push puts the pushed element first.
proof fn lemma_reverse_push(s: Seq<char>, c: char)
    ensures
        (s.push(c)).reverse() =~= seq![c] + s.reverse(),
{
}

/// Renders the count `id` as an identifier string in the alphabet `chars`,
/// left padded with the zero symbol to at least `min` symbols.
pub fn format_id(id: &usize, min: &usize, chars: &Vec<char>) -> (r: String)
    requires
        wf_alphabet(chars@),
    ensures
        r@ == encode_spec(*id as nat, chars@, *min as nat),
{
    let ghost a = chars@;
    let b = chars.len();
    let mut digits_rev: Vec<char> = Vec::new();
    let mut remaining: usize = *id;

    let ghost r0 = *id as nat;
    digits_rev.push(chars[remaining % b]);
    proof {
        lemma_reverse_push(Seq::<char>::empty(), a[(r0 % b as nat) as int]);
        assert(Seq::<char>::empty().reverse() =~= Seq::<char>::empty());
        if r0 < b as nat {
            lemma_small_mod(r0, b as nat);
            lemma_basic_div(r0 as int, b as int);
            assert(min_encoding(r0, a) =~= digits_rev@.reverse());
        } else {
            lemma_div_is_ordered(b as int, r0 as int, b as int);
            lemma_div_by_self(b as int);
            assert(min_encoding(r0, a) =~= min_encoding(r0 / b as nat, a) + digits_rev@.reverse());
        }
    }
    remaining = remaining / b;

    while remaining > 0
        invariant
            wf_alphabet(a),
            a == chars@,
            b == a.len(),
            digits_rev.len() >= 1,
            remaining > 0 ==> min_encoding(*id as nat, a) == min_encoding(remaining as nat, a)
                + digits_rev@.reverse(),
            remaining == 0 ==> min_encoding(*id as nat, a) == digits_rev@.reverse(),
        decreases remaining,
    {
        let ghost before = digits_rev@;
        let ghost rem0 = remaining as nat;
        digits_rev.push(chars[remaining % b]);
        proof {
            lemma_reverse_push(before, a[(rem0 % b as nat) as int]);
            if rem0 < b as nat {
                lemma_small_mod(rem0, b as nat);
                assert(min_encoding(rem0, a) == seq![a[rem0 as int]]);
                assert(min_encoding(rem0, a) + before.reverse() =~= digits_rev@.reverse());
            } else {
                assert(min_encoding(rem0, a) == min_encoding(rem0 / b as nat, a).push(
                    a[(rem0 % b as nat) as int],
                ));
                assert(min_encoding(rem0, a) + before.reverse() =~= min_encoding(
                    rem0 / b as nat,
                    a,
                ) + digits_rev@.reverse());
                assert(min_encoding(*id as nat, a) =~= min_encoding(rem0 / b as nat, a)
                    + digits_rev@.reverse());
            }
        }
        remaining = remaining / b;
        proof {
            lemma_div_decreases(rem0 as int, b as int);
            if rem0 >= b as nat {
                lemma_div_is_ordered(b as int, rem0 as int, b as int);
                lemma_div_by_self(b as int);
            } else {
                lemma_basic_div(rem0 as int, b as int);
            }
        }
    }

    while digits_rev.len() < *min
        invariant
            wf_alphabet(a),
            a == chars@,
            b == a.len(),
            digits_rev.len() >= min_encoding(*id as nat, a).len(),
            digits_rev.len() > min_encoding(*id as nat, a).len() ==> digits_rev.len()
                <= *min,
            digits_rev@.reverse() == Seq::new(
                (digits_rev.len() - min_encoding(*id as nat, a).len()) as nat,
                |i: int| a[0],
            ) + min_encoding(*id as nat, a),
        decreases *min - digits_rev.len(),
    {
        let ghost before = digits_rev@;
        digits_rev.push(chars[0]);
        proof {
            lemma_reverse_push(before, a[0]);
            assert(digits_rev@.reverse() =~= Seq::new(
                (digits_rev.len() - min_encoding(*id as nat, a).len()) as nat,
                |i: int| a[0],
            ) + min_encoding(*id as nat, a));
        }
    }

    let mut current = String::new();
    let n = digits_rev.len();
    let mut i: usize = n;
    while i > 0
        invariant
            i <= n,
            n == digits_rev.len(),
            current@ == digits_rev@.subrange(i as int, n as int).reverse(),
        decreases i,
    {
        i = i - 1;
        let ghost before = current@;
        push_char(&mut current, digits_rev[i]);
        proof {
            assert(current@ =~= digits_rev@.subrange(i as int, n as int).reverse());
        }
    }
    proof {
        assert(digits_rev@.subrange(0, n as int) =~= digits_rev@);
        assert(current@ == digits_rev@.reverse());
        if min_encoding(*id as nat, a).len() >= *min as nat {
            assert(digits_rev@.reverse() =~= min_encoding(*id as nat, a));
        }
        assert(current@ =~= encode_spec(*id as nat, chars@, *min as nat));
    }
    current
}

/// Parses the identifier string `id` back to the count it denotes in the
/// alphabet `chars`. Leading zero symbols are ignored, so padding decodes
/// away.
pub fn parse_id(id: &str, chars: &Vec<char>) -> (r: usize)
    requires
        wf_alphabet(chars@),
        all_in_alphabet(id@, chars@),
        decode_spec(id@, chars@) <= usize::MAX,
    ensures
        r as nat == decode_spec(id@, chars@),
{
    let ghost a = chars@;
    let b = chars.len();
    let n = id.unicode_len();
    let mut status: usize = 0;
    let mut i: usize = 0;
    while i < n
        invariant
            i <= n,
            n == id@.len(),
            a == chars@,
            b == a.len(),
            wf_alphabet(a),
            all_in_alphabet(id@, a),
            decode_spec(id@, a) <= usize::MAX,
            status as nat == decode_spec(id@.take(i as int), a),
        decreases n - i,
    {
        let c = id.get_char(i);
        assert(a.contains(id@[i as int]));
        let p = position_of(chars, c);
        proof {
            let t = id@.take(i + 1);
            assert(t.drop_last() =~= id@.take(i as int));
            assert(t.last() == id@[i as int]);
            assert(decode_spec(t, a) == decode_spec(id@.take(i as int), a) * b + pos_of(a, c));
            crate::codec::lemma_decode_prefix_le(id@, a, i + 1);
        }
        status = status * b + p;
        i += 1;
    }
    proof {
        assert(id@.take(n as int) =~= id@);
    }
    status
}

} // verus!
