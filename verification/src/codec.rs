//! The numeral codec's mathematical model: what it means to render a count in
//! a positional numeral system over a custom alphabet, and to read it back.

use vstd::arithmetic::div_mod::{
    lemma_div_by_self, lemma_div_decreases, lemma_div_is_ordered, lemma_fundamental_div_mod,
};
use vstd::prelude::*;

verus! {

/// An alphabet is well formed when it has at least two symbols and no symbol
/// occurs twice: fewer than two symbols give a degenerate base, and a repeated
/// symbol would make decoding ambiguous.
pub open spec fn wf_alphabet(a: Seq<char>) -> bool {
    &&& a.len() >= 2
    &&& forall|i: int, j: int| 0 <= i < j < a.len() ==> a[i] != a[j]
}

/// The ordinal position of symbol `c` in alphabet `a`: its digit value.
/// Yields `a.len()` when `c` is not a symbol of `a`.
pub open spec fn pos_of(a: Seq<char>, c: char) -> nat {
    if exists|k: int| 0 <= k < a.len() && a[k] == c {
        (choose|k: int| 0 <= k < a.len() && a[k] == c) as nat
    } else {
        a.len()
    }
}

/// Every symbol of `s` occurs in alphabet `a`.
pub open spec fn all_in_alphabet(s: Seq<char>, a: Seq<char>) -> bool {
    forall|i: int| 0 <= i < s.len() ==> a.contains(s[i])
}

/// The minimal (unpadded) rendering of count `n` in alphabet `a`, most
/// significant symbol first: the digits of `n` in base `a.len()`, each mapped
/// to its symbol. A count below the base is a single symbol, so zero renders
/// as the zero symbol, not as the empty string.
pub open spec fn min_encoding(n: nat, a: Seq<char>) -> Seq<char>
    recommends
        a.len() >= 2,
    decreases n,
{
    if a.len() < 2 {
        Seq::empty()
    } else if n < a.len() {
        seq![a[n as int]]
    } else {
        proof {
            lemma_div_decreases(n as int, a.len() as int);
        }
        min_encoding(n / a.len(), a).push(a[(n % a.len()) as int])
    }
}

/// Count `n` rendered in alphabet `a` and left padded with the zero symbol
/// `a[0]` until the result holds at least `min_len` symbols.
pub open spec fn encode_spec(n: nat, a: Seq<char>, min_len: nat) -> Seq<char> {
    let m = min_encoding(n, a);
    if m.len() >= min_len {
        m
    } else {
        Seq::new((min_len - m.len()) as nat, |i: int| a[0]) + m
    }
}

/// The count that the digit string `s` denotes in alphabet `a`, reading the
/// most significant symbol first.
pub open spec fn decode_spec(s: Seq<char>, a: Seq<char>) -> nat
    decreases s.len(),
{
    if s.len() == 0 {
        0
    } else {
        decode_spec(s.drop_last(), a) * a.len() + pos_of(a, s.last())
    }
}

/// In a duplicate-free alphabet the digit value of `a[i]` is exactly `i`.
pub proof fn lemma_pos_of_index(a: Seq<char>, i: int)
    requires
        wf_alphabet(a),
        0 <= i < a.len(),
    ensures
        pos_of(a, a[i]) == i,
{
    let c = a[i];
    assert(0 <= i < a.len() && a[i] == c);
    assert(exists|k: int| 0 <= k < a.len() && a[k] == c);
    let k = choose|k: int| 0 <= k < a.len() && a[k] == c;
    if k != i {
        if k < i {
            assert(a[k] != a[i]);
        } else {
            assert(a[i] != a[k]);
        }
    }
    assert(pos_of(a, c) == k as nat);
}

/// Decoding the minimal rendering of a count recovers the count.
pub proof fn lemma_decode_min_encoding(n: nat, a: Seq<char>)
    requires
        wf_alphabet(a),
    ensures
        decode_spec(min_encoding(n, a), a) == n,
    decreases n,
{
    let b = a.len();
    if n < b {
        let m = min_encoding(n, a);
        assert(m == seq![a[n as int]]);
        assert(m.drop_last() =~= Seq::<char>::empty());
        assert(m.last() == a[n as int]);
        lemma_pos_of_index(a, n as int);
        assert(decode_spec(Seq::<char>::empty(), a) == 0);
        assert(decode_spec(m, a) == decode_spec(m.drop_last(), a) * b + pos_of(a, m.last()));
    } else {
        lemma_div_decreases(n as int, b as int);
        lemma_decode_min_encoding(n / b, a);
        let prefix = min_encoding(n / b, a);
        let m = min_encoding(n, a);
        assert(m == prefix.push(a[(n % b) as int]));
        assert(m.drop_last() =~= prefix);
        assert(m.last() == a[(n % b) as int]);
        lemma_pos_of_index(a, (n % b) as int);
        assert(decode_spec(m, a) == (n / b) * b + n % b);
        lemma_fundamental_div_mod(n as int, b as int);
        assert((n / b) * b == b * (n / b)) by (nonlinear_arith);
    }
}

/// A string made only of the zero symbol decodes to zero.
pub proof fn lemma_decode_all_zero(p: Seq<char>, a: Seq<char>)
    requires
        wf_alphabet(a),
        forall|i: int| 0 <= i < p.len() ==> p[i] == a[0],
    ensures
        decode_spec(p, a) == 0,
    decreases p.len(),
{
    if p.len() > 0 {
        lemma_decode_all_zero(p.drop_last(), a);
        assert(p.last() == p[p.len() - 1]);
        assert(p.last() == a[0]);
        lemma_pos_of_index(a, 0);
        assert(decode_spec(p, a) == decode_spec(p.drop_last(), a) * a.len() + pos_of(a, p.last()));
    }
}

/// Leading zero symbols are cosmetic: prepending them never changes the
/// decoded count.
pub proof fn lemma_decode_zero_prefix(p: Seq<char>, s: Seq<char>, a: Seq<char>)
    requires
        wf_alphabet(a),
        forall|i: int| 0 <= i < p.len() ==> p[i] == a[0],
    ensures
        decode_spec(p + s, a) == decode_spec(s, a),
    decreases s.len(),
{
    if s.len() == 0 {
        assert(p + s =~= p);
        lemma_decode_all_zero(p, a);
    } else {
        assert((p + s).drop_last() =~= p + s.drop_last());
        assert((p + s).last() == s.last());
        lemma_decode_zero_prefix(p, s.drop_last(), a);
    }
}

/// Round trip: decoding an encoded count recovers the count, whatever the
/// minimum length was, for every well-formed alphabet.
pub proof fn lemma_round_trip(n: nat, a: Seq<char>, min_len: nat)
    requires
        wf_alphabet(a),
    ensures
        decode_spec(encode_spec(n, a, min_len), a) == n,
{
    let m = min_encoding(n, a);
    lemma_decode_min_encoding(n, a);
    if m.len() < min_len {
        let p = Seq::new((min_len - m.len()) as nat, |i: int| a[0]);
        lemma_decode_zero_prefix(p, m, a);
    }
}

/// Monotonicity of production: advancing the counter by `k` yields an
/// identifier whose decoded count is greater by exactly `k`.
pub proof fn lemma_advance_by(n: nat, k: nat, a: Seq<char>, min_len: nat)
    requires
        wf_alphabet(a),
    ensures
        decode_spec(encode_spec(n + k, a, min_len), a) == decode_spec(encode_spec(n, a, min_len), a)
            + k,
{
    lemma_round_trip(n + k, a, min_len);
    lemma_round_trip(n, a, min_len);
}

/// Encoding is injective: two counts that render to the same string under one
/// alphabet and one minimum length are the same count.
pub proof fn lemma_encode_injective(n1: nat, n2: nat, a: Seq<char>, min_len: nat)
    requires
        wf_alphabet(a),
        encode_spec(n1, a, min_len) == encode_spec(n2, a, min_len),
    ensures
        n1 == n2,
{
    lemma_round_trip(n1, a, min_len);
    lemma_round_trip(n2, a, min_len);
}

/// Padding: the zero count rendered with a positive minimum length has
/// exactly that length and consists entirely of the zero symbol.
pub proof fn lemma_zero_padding(a: Seq<char>, min_len: nat)
    requires
        wf_alphabet(a),
        min_len >= 1,
    ensures
        encode_spec(0, a, min_len).len() == min_len,
        forall|i: int| 0 <= i < min_len ==> encode_spec(0, a, min_len)[i] == a[0],
{
    let m = min_encoding(0, a);
    assert(m == seq![a[0]]);
    if m.len() < min_len {
        let p = Seq::new((min_len - m.len()) as nat, |i: int| a[0]);
        assert(encode_spec(0, a, min_len) == p + m);
        assert(forall|i: int| 0 <= i < min_len ==> (p + m)[i] == a[0]);
    }
}

/// Switch round trip: converting a canonical identifier from alphabet `a` to
/// alphabet `b` and back yields the identifier again, whatever the two
/// minimum lengths are. Canonical means the identifier is what `a` renders
/// its own count as, which holds of every identifier the codec produced.
pub proof fn lemma_switch_round_trip(
    t: Seq<char>,
    a: Seq<char>,
    b: Seq<char>,
    a_min: nat,
    b_min: nat,
)
    requires
        wf_alphabet(a),
        wf_alphabet(b),
        t == encode_spec(decode_spec(t, a), a, a_min),
    ensures
        encode_spec(decode_spec(encode_spec(decode_spec(t, a), b, b_min), b), a, a_min) == t,
{
    lemma_round_trip(decode_spec(t, a), b, b_min);
}

/// The minimal rendering of a positive count is never longer than the count
/// itself.
pub proof fn lemma_min_encoding_len_le(n: nat, a: Seq<char>)
    requires
        wf_alphabet(a),
        n >= 1,
    ensures
        min_encoding(n, a).len() <= n,
    decreases n,
{
    let b = a.len();
    if n >= b {
        lemma_div_decreases(n as int, b as int);
        assert(n / b >= 1) by {
            lemma_div_is_ordered(b as int, n as int, b as int);
            lemma_div_by_self(b as int);
        }
        lemma_min_encoding_len_le(n / b, a);
    }
}

/// The count denoted by a prefix of a digit string is never larger than the
/// count denoted by the whole string.
pub proof fn lemma_decode_prefix_le(s: Seq<char>, a: Seq<char>, j: int)
    requires
        a.len() >= 1,
        0 <= j <= s.len(),
    ensures
        decode_spec(s.take(j), a) <= decode_spec(s, a),
    decreases s.len() - j,
{
    if j == s.len() {
        assert(s.take(j) =~= s);
    } else {
        let t = s.take(j + 1);
        assert(t.drop_last() =~= s.take(j));
        assert(t.last() == s[j]);
        assert(decode_spec(t, a) == decode_spec(s.take(j), a) * a.len() + pos_of(a, s[j]));
        assert(decode_spec(s.take(j), a) <= decode_spec(s.take(j), a) * a.len()) by (nonlinear_arith)
            requires
                a.len() >= 1,
        ;
        lemma_decode_prefix_le(s, a, j + 1);
    }
}

} // verus!
