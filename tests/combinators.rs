use combinator_regex::accepts::Accepts;
use combinator_regex::combinators;
use combinator_regex::combinators::{alt, byte, byte_range, dot, empty, maybe, one_of, star};
use combinator_regex::pattern::Pattern;
use combinator_regex::regex::{drive, Regex};
use combinator_regex::simple_state::SimpleState;

const ANUM: &str = "31415926535897932384626.4338327950288419716939937";
const NOTANUM: &str = "31415926535897932384626.4338327.95028841971693993";

#[test]
fn tests() {
    let zero = byte('0');
    assert!(!zero.is_match(""));
    assert!(zero.is_match("0"));
    assert!(!zero.is_match("1"));
    assert!(!zero.is_match("00"));
    assert!(!zero.is_match("01"));
    assert!(!zero.is_match("10"));

    let digit = byte_range('0', '1');
    assert!(!digit.is_match(""));
    assert!(digit.is_match("0"));
    assert!(digit.is_match("1"));
    assert!(!digit.is_match("2"));
    assert!(!digit.is_match("01"));
    assert!(!digit.is_match("00"));

    let zeroes = star(byte('0'));
    assert!(zeroes.is_match(""));
    assert!(zeroes.is_match("0"));
    assert!(zeroes.is_match("00"));
    assert!(!zeroes.is_match("1"));
    assert!(!zeroes.is_match("01"));
    assert!(!zeroes.is_match("0010"));

    let oh_one = combinators::seq(byte('0'), byte('1'));
    assert!(oh_one.is_match("01"));

    let integer = alt(byte('0'), combinators::seq(byte('1'), star(byte_range('0', '1'))));
    assert!(integer.is_match("0"));
    assert!(!integer.is_match("2"));
    assert!(integer.is_match("10"));
    assert!(!integer.is_match("01"));
    assert!(integer.is_match("1101001"));
    assert!(!integer.is_match("0101001"));
    assert!(!integer.is_match("1101021"));
}

#[test]
fn empty_matches_only_the_empty_string() {
    let p = empty();
    assert!(p.is_match(""));
    assert!(!p.is_match("a"));
    assert!(!p.is_match("ab"));
}

#[test]
fn literal_matches_its_one_character_string() {
    let p = byte('a');
    assert!(p.is_match("a"));
    assert!(!p.is_match(""));
    assert!(!p.is_match("b"));
    assert!(!p.is_match("aa"));
    let accent = byte('é');
    assert!(accent.is_match("é"));
    assert!(!accent.is_match("e"));
}

#[test]
fn one_of_matches_one_member_character() {
    let p = one_of("01");
    assert!(p.is_match("0"));
    assert!(p.is_match("1"));
    assert!(!p.is_match("2"));
    assert!(!p.is_match(""));
    assert!(!p.is_match("01"));
    let none = one_of("");
    assert!(!none.is_match(""));
    assert!(!none.is_match("a"));
}

#[test]
fn dot_matches_any_single_character() {
    let p = dot();
    assert!(p.is_match("x"));
    assert!(p.is_match("λ"));
    assert!(!p.is_match(""));
    assert!(!p.is_match("xy"));
}

#[test]
fn byte_range_bounds_are_inclusive() {
    let p = byte_range('b', 'd');
    assert!(!p.is_match("a"));
    assert!(p.is_match("b"));
    assert!(p.is_match("c"));
    assert!(p.is_match("d"));
    assert!(!p.is_match("e"));
    let greek = byte_range('α', 'ω');
    assert!(greek.is_match("λ"));
    assert!(!greek.is_match("z"));
}

#[test]
fn sequence_needs_both_parts_in_order() {
    let p = combinators::seq(byte('0'), byte('1'));
    assert!(p.is_match("01"));
    assert!(!p.is_match("0"));
    assert!(!p.is_match("1"));
    assert!(!p.is_match("011"));
    assert!(!p.is_match(""));
    assert!(!p.is_match("10"));
}

#[test]
fn sequence_tries_every_split() {
    let p = combinators::seq(star(byte('a')), byte('a'));
    assert!(!p.is_match(""));
    assert!(p.is_match("a"));
    assert!(p.is_match("aaaa"));
    assert!(!p.is_match("aab"));
    let q = combinators::seq(maybe(byte('a')), combinators::seq(byte('a'), byte('b')));
    assert!(q.is_match("ab"));
    assert!(q.is_match("aab"));
    assert!(!q.is_match("aaab"));
}

#[test]
fn sequence_waits_for_a_late_second_part() {
    let p = combinators::seq(combinators::seq(byte('a'), byte('b')), byte('c'));
    assert!(p.is_match("abc"));
    assert!(!p.is_match("ab"));
    assert!(!p.is_match("abcc"));
}

#[test]
fn empty_string_operand_does_not_end_the_match_early() {
    let p = combinators::seq(byte('0'), empty());
    assert!(p.is_match("0"));
    assert!(!p.is_match("0x"));
    let q = alt(empty(), byte('a'));
    assert!(q.is_match(""));
    assert!(q.is_match("a"));
    assert!(!q.is_match("ab"));
}

#[test]
fn alternation_is_either_side() {
    let p = alt(byte('a'), combinators::seq(byte('b'), byte('c')));
    assert!(p.is_match("a"));
    assert!(p.is_match("bc"));
    assert!(!p.is_match("b"));
    assert!(!p.is_match("abc"));
    assert!(!p.is_match(""));
}

#[test]
fn zero_or_more_partitions_into_matches() {
    let p = star(byte('0'));
    assert!(p.is_match(""));
    assert!(p.is_match("0"));
    assert!(p.is_match("00"));
    assert!(!p.is_match("01"));
    let q = star(combinators::seq(byte('a'), byte('b')));
    assert!(q.is_match("ababab"));
    assert!(!q.is_match("aba"));
    let r = star(maybe(byte('x')));
    assert!(r.is_match(""));
    assert!(r.is_match("xxx"));
    assert!(!r.is_match("xy"));
}

#[test]
fn optional_is_empty_or_inner() {
    let p = maybe(byte('a'));
    assert!(p.is_match(""));
    assert!(p.is_match("a"));
    assert!(!p.is_match("aa"));
    assert!(!p.is_match("b"));
}

#[test]
fn binary_integer_scenario() {
    let p = alt(byte('0'), combinators::seq(byte('1'), star(one_of("01"))));
    assert!(p.is_match("0"));
    assert!(p.is_match("10"));
    assert!(p.is_match("1101001"));
    assert!(!p.is_match("2"));
    assert!(!p.is_match("01"));
    assert!(!p.is_match("1101021"));
}

#[test]
fn decimal_scenario() {
    let integer = alt(
        byte('0'),
        combinators::seq(one_of("123456789"), star(one_of("0123456789"))),
    );
    let tail = combinators::seq(byte('.'), star(one_of("0123456789")));
    let decimal = combinators::seq(integer, maybe(tail));
    assert!(decimal.is_match(ANUM));
    assert!(!decimal.is_match(NOTANUM));
    assert!(decimal.is_match("0"));
    assert!(decimal.is_match("0."));
    assert!(!decimal.is_match("00"));
    assert!(!decimal.is_match(".5"));
}

#[test]
fn combine_table() {
    let all = [Accepts::Yes, Accepts::No, Accepts::Always, Accepts::Never];
    for &x in all.iter() {
        assert_eq!(Accepts::Always.combine(x), Accepts::Always);
        assert_eq!(x.combine(Accepts::Always), Accepts::Always);
        assert_eq!(Accepts::Never.combine(x), x);
        for &y in all.iter() {
            assert_eq!(x.combine(y), y.combine(x));
            for &z in all.iter() {
                assert_eq!(x.combine(y).combine(z), x.combine(y.combine(z)));
            }
        }
    }
    assert_eq!(Accepts::Never.combine(Accepts::Never), Accepts::Never);
    assert_eq!(Accepts::Yes.combine(Accepts::No), Accepts::Yes);
    assert_eq!(Accepts::No.combine(Accepts::Never), Accepts::No);
    assert!(Accepts::Yes.is_accepted() && Accepts::Always.is_accepted());
    assert!(!Accepts::No.is_accepted() && !Accepts::Never.is_accepted());
    assert!(Accepts::Always.is_final() && Accepts::Never.is_final());
    assert!(!Accepts::Yes.is_final() && !Accepts::No.is_final());
}

#[test]
fn simple_state_transitions() {
    for (from, to) in [(SimpleState::Neither, SimpleState::Start), (SimpleState::Start, SimpleState::Start), (SimpleState::Both, SimpleState::Both), (SimpleState::End, SimpleState::Both)] {
        let mut s = from;
        s.start();
        assert_eq!(s, to);
    }
    for (from, to) in [(SimpleState::Neither, SimpleState::Neither), (SimpleState::End, SimpleState::Neither), (SimpleState::Both, SimpleState::End), (SimpleState::Start, SimpleState::End)] {
        let mut s = from;
        s.advance();
        assert_eq!(s, to);
    }
    for from in [SimpleState::Neither, SimpleState::End, SimpleState::Both, SimpleState::Start] {
        let mut s = from;
        s.die();
        assert_eq!(s, SimpleState::Neither);
    }
    assert_eq!(SimpleState::End.accepts(), Accepts::Yes);
    assert_eq!(SimpleState::Both.accepts(), Accepts::Yes);
    assert_eq!(SimpleState::Start.accepts(), Accepts::No);
    assert_eq!(SimpleState::Neither.accepts(), Accepts::Never);
}

fn full_scan(p: &Pattern, input: &str) -> bool {
    let mut t = p.tracker();
    t.start();
    for c in input.chars() {
        t.advance(c);
    }
    t.accepts().is_accepted()
}

fn sample_patterns() -> Vec<Pattern> {
    vec![
        empty(),
        dot(),
        byte('a'),
        star(byte('a')),
        combinators::seq(byte('a'), empty()),
        combinators::seq(star(byte('a')), byte('b')),
        alt(byte('a'), combinators::seq(byte('b'), star(dot()))),
        star(alt(byte('a'), combinators::seq(byte('b'), byte('a')))),
        maybe(combinators::seq(byte('a'), byte('b'))),
        combinators::seq(combinators::seq(byte('a'), byte('b')), star(one_of("ab"))),
        star(maybe(byte('b'))),
        combinators::seq(maybe(byte('a')), combinators::seq(byte('a'), empty())),
    ]
}

#[test]
fn short_circuit_agrees_with_full_scan() {
    let patterns = sample_patterns();
    let mut seed: u64 = 0x2545F4914F6CDD1D;
    let alphabet = ['a', 'b', 'c'];
    for _ in 0..400 {
        seed = seed.wrapping_mul(6364136223846793005).wrapping_add(1442695040888963407);
        let len = ((seed >> 33) % 7) as usize;
        let mut input = String::new();
        for _ in 0..len {
            seed = seed.wrapping_mul(6364136223846793005).wrapping_add(1442695040888963407);
            input.push(alphabet[((seed >> 33) % 3) as usize]);
        }
        for p in patterns.iter() {
            let early = p.is_match(&input);
            assert_eq!(early, full_scan(p, &input));
            assert_eq!(early, drive(p.tracker(), &input));
        }
    }
}

#[test]
fn tracker_reports_final_answers() {
    let p = combinators::seq(byte('a'), byte('b'));
    let mut t = p.tracker();
    t.start();
    assert_eq!(t.accepts(), Accepts::No);
    t.advance('a');
    assert_eq!(t.accepts(), Accepts::No);
    t.advance('b');
    assert_eq!(t.accepts(), Accepts::Yes);
    t.advance('b');
    assert_eq!(t.accepts(), Accepts::Never);
    t.advance('a');
    assert_eq!(t.accepts(), Accepts::Never);

    let q = star(byte('a'));
    let mut u = q.tracker();
    u.start();
    assert_eq!(u.accepts(), Accepts::Yes);
    u.advance('a');
    assert_eq!(u.accepts(), Accepts::Yes);
    u.advance('b');
    assert_eq!(u.accepts(), Accepts::Never);
}
