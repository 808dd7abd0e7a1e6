use light_id::{IdSwitcher, LightId};

const HEX: &str = "0123456789abcdef";

/// Round trip: decoding an encoded count recovers the count, for alphabets
/// of size 2, 3, 16 and 62 and minimum lengths 0, 5 and 10. Counts are
/// sampled densely at the low end of [0, 100000) and sparsely above.
#[test]
fn round_trip_all_alphabets() {
    let alphabets = ["01", "abc", HEX, light_id::DEFAULT_CHARACTERS];
    for alphabet in alphabets {
        for m in [0usize, 5, 10] {
            let mut gen = LightId::from(alphabet);
            gen.min(m);
            for c in (0usize..2000).chain((2000..100000).step_by(97)) {
                let encoded = gen.nth(c);
                assert_eq!(c, gen.index(&encoded));
            }
        }
    }
}

/// Monotonicity: successive `next` calls produce identifiers whose decoded
/// counts strictly increase by exactly one, and an `increment_by` advances
/// the decoded count by exactly the requested amount.
#[test]
fn take_is_monotonic() {
    let mut gen = LightId::from("abc");
    let mut previous = gen.next();
    for _ in 0..500 {
        let current = gen.next();
        assert_eq!(gen.index(&previous) + 1, gen.index(&current));
        previous = current;
    }

    let mut jumper = LightId::from(HEX);
    for step in [1usize, 7, 100, 4096] {
        let before = jumper.current();
        jumper.increment_by(step);
        let after = jumper.current();
        assert_eq!(jumper.index(&before) + step, jumper.index(&after));
    }
}

/// Padding: count zero rendered with minimum length 5 has length exactly 5
/// and consists entirely of the zero symbol.
#[test]
fn zero_pads_with_zero_symbol() {
    for alphabet in ["01", "abc", HEX, light_id::DEFAULT_CHARACTERS] {
        let mut gen = LightId::from(alphabet);
        gen.min(5);
        let id = gen.current();
        assert_eq!(5, id.chars().count());
        let zero = alphabet.chars().next().unwrap();
        assert!(id.chars().all(|c| c == zero));
    }
}

/// Switch round trip: converting forward and back recovers the identifier
/// for every count in [0, 100).
#[test]
fn switch_round_trip() {
    let switch = IdSwitcher::new("0123456789", "abcdefghij");
    for i in 0..100 {
        let text = i.to_string();
        let forward = switch.switch(&text);
        assert_eq!(text, switch.switch_reverse(&forward));
    }
}

/// Three successive increments from zero over "abc" give "ba": count 3 in
/// base 3 is the digits [1, 0], that is the symbols "b" then "a".
#[test]
fn three_increments_scenario() {
    let mut gen = LightId::from("abc");
    gen.increment();
    gen.increment();
    gen.increment();
    assert_eq!("ba", gen.current());
}

/// Jumping to count 12 over "abc" gives "bba".
#[test]
fn jump_scenario() {
    let mut gen = LightId::from("abc");
    gen.skip(12);
    assert_eq!("bba", gen.current());
}

/// The default 62-symbol alphabet starts with the digits, so count zero with
/// minimum length 6 renders as "000000".
#[test]
fn default_alphabet_scenario() {
    let mut gen = LightId::new();
    gen.min(6);
    assert_eq!("000000", gen.current());
}

/// Switching "100" from decimal to binary gives the binary representation of
/// one hundred, "1100100".
#[test]
fn decimal_to_binary_scenario() {
    let switch = IdSwitcher::new("0123456789", "01");
    assert_eq!("1100100", switch.switch("100"));
}

/// Decrementing below zero saturates at zero rather than wrapping.
#[test]
fn decrement_saturates_at_zero() {
    let mut gen = LightId::from("abc");
    gen.decrement();
    assert_eq!(0, gen.count());

    gen.skip(5);
    gen.decrement_by(100);
    assert_eq!(0, gen.count());
    assert_eq!("a", gen.current());
}

/// Leading zero symbols are cosmetic: they decode away.
#[test]
fn padding_decodes_away() {
    let gen = LightId::from("abc");
    assert_eq!(5, gen.index("bc"));
    assert_eq!(5, gen.index("aaabc"));
    assert_eq!(0, gen.index("aaaaa"));
}

/// The length computed without rendering agrees exactly with the rendered
/// identifier's length.
#[test]
fn len_agrees_with_current() {
    for m in [0usize, 5, 10] {
        for c in (0usize..500).chain([4095, 4096, 100000]) {
            let mut gen = LightId::from(HEX);
            gen.min(m);
            gen.skip(c);
            assert_eq!(gen.current().chars().count(), gen.len());
        }
    }
}

/// Changing the alphabet keeps the counter: the same count is reinterpreted
/// under the new base at the next rendering.
#[test]
fn chars_keeps_counter() {
    let mut gen = LightId::from("0123456789");
    gen.skip(100);
    assert_eq!("100", gen.current());
    gen.chars("01");
    assert_eq!(100, gen.count());
    assert_eq!("1100100", gen.current());
}

/// A clone evolves independently of the generator it was taken from.
#[test]
fn clone_is_independent() {
    let mut gen = LightId::from("abc");
    gen.skip(7);
    let mut copy = gen.clone();
    copy.increment();
    assert_eq!(7, gen.count());
    assert_eq!(8, copy.count());
}

/// Generators compare by counter for ordering, and by counter and alphabet
/// for equality; the padding floor takes no part.
#[test]
fn generators_compare_by_count() {
    let mut left = LightId::from("abc");
    let mut right = LightId::from("abc");
    assert!(left == right);

    right.min(10);
    assert!(left == right);

    right.increment();
    assert!(left != right);
    assert!(left < right);
    assert!(right > left);

    left.increment();
    assert!(left == right);

    let other = LightId::from("xyz");
    assert!(left != other);
}

/// The reverse direction honours the source minimum length.
#[test]
fn min_source_pads_reverse() {
    let mut switch = IdSwitcher::new("0123456789", "abcdefghij");
    switch.min_source(10);
    assert_eq!("0000000000", switch.switch_reverse("a"));
}

/// Converting an already-known count skips the decode step but renders the
/// same identifier.
#[test]
fn switch_count_matches_switch() {
    let switch = IdSwitcher::new("0123456789", HEX);
    for i in 0..300usize {
        assert_eq!(switch.switch(&i.to_string()), switch.switch_count(i));
        assert_eq!(i.to_string(), switch.switch_count_reverse(i));
    }
}

/// A switcher clone behaves exactly as the switcher it was taken from.
#[test]
fn switcher_clone_behaves_alike() {
    let mut switch = IdSwitcher::new("0123456789", "01");
    switch.min_target(4);
    let copy = switch.clone();
    assert_eq!(switch.switch("5"), copy.switch("5"));
    assert_eq!("0101", copy.switch("5"));
}

/// `next` returns the identifier of the counter before the advance.
#[test]
fn next_returns_then_advances() {
    let mut gen = LightId::new();
    assert_eq!("0", gen.next());
    assert_eq!("1", gen.next());
    assert_eq!("2", gen.next());
    assert_eq!(3, gen.count());
}

/// The identifier of an arbitrary ordinal, and the ordinal of an arbitrary
/// identifier, with the default alphabet.
#[test]
fn nth_and_index_with_default_alphabet() {
    let gen = LightId::new();
    assert_eq!("2", gen.nth(2));
    assert_eq!("10", gen.nth(62));
    assert_eq!("zz", gen.nth(35 * 62 + 35));
    assert_eq!(2, gen.index("2"));
    assert_eq!(62, gen.index("10"));
    assert_eq!(35 * 62 + 35, gen.index("zz"));
}
