use dense_linalg::instance::parse_label;
use dense_linalg::ngrams::ngrams;
use dense_linalg::popcnt::{compute_byte_table, popcnt, popcnt_lookup};
use dense_linalg::reverse::reverse_lines;

#[test]
pub fn ngrams_test() {
    let hello_chars: Vec<_> = "hello world".chars().collect();
    let mut hello_check: Vec<&[char]> = vec![
        &['h'],
        &['h', 'e'],
        &['h', 'e', 'l'],
        &['e'],
        &['e', 'l'],
        &['e', 'l', 'l'],
        &['l'],
        &['l', 'l'],
        &['l', 'l', 'o'],
        &['l'],
        &['l', 'o'],
        &['l', 'o', ' '],
        &['o'],
        &['o', ' '],
        &['o', ' ', 'w'],
        &[' '],
        &[' ', 'w'],
        &[' ', 'w', 'o'],
        &['w'],
        &['w', 'o'],
        &['w', 'o', 'r'],
        &['o'],
        &['o', 'r'],
        &['o', 'r', 'l'],
        &['r'],
        &['r', 'l'],
        &['r', 'l', 'd'],
        &['l'],
        &['l', 'd'],
        &['d'],
    ];
    hello_check.sort();

    let mut hello_ngrams = ngrams(&hello_chars, 1, 3);
    hello_ngrams.sort();

    assert_eq!(hello_check, hello_ngrams);
}

#[test]
pub fn ngrams_23_test() {
    let hello_chars: Vec<_> = "hello world".chars().collect();
    let mut hello_check: Vec<&[char]> = vec![
        &['h', 'e'],
        &['h', 'e', 'l'],
        &['e', 'l'],
        &['e', 'l', 'l'],
        &['l', 'l'],
        &['l', 'l', 'o'],
        &['l', 'o'],
        &['l', 'o', ' '],
        &['o', ' '],
        &['o', ' ', 'w'],
        &[' ', 'w'],
        &[' ', 'w', 'o'],
        &['w', 'o'],
        &['w', 'o', 'r'],
        &['o', 'r'],
        &['o', 'r', 'l'],
        &['r', 'l'],
        &['r', 'l', 'd'],
        &['l', 'd'],
    ];
    hello_check.sort();

    let mut hello_ngrams = ngrams(&hello_chars, 2, 3);
    hello_ngrams.sort();

    assert_eq!(hello_check, hello_ngrams);
}

#[test]
pub fn empty_ngram_test() {
    let check: &[&[char]] = &[];
    assert_eq!(ngrams::<char>(&[], 1, 3), check);
}

#[test]
pub fn char_ngrams_test() {
    let chars: Vec<char> = "abc".chars().collect();
    let grams = dense_linalg::ngrams::char_ngrams(&chars, 1, 2);
    let check: Vec<&[char]> = vec![
        &['a', 'b'],
        &['a'],
        &['b', 'c'],
        &['b'],
        &['c'],
    ];
    assert_eq!(grams, check);
}

#[test]
fn popcnt_test() {
    fn prop(v: u64) -> bool {
        if popcnt(v) != v.count_ones() {
            return false;
        }

        // Cheap way to check whether popcnt is correct on 32-bit
        // machines as well: exercise the high half too.
        let v_shift = v << 32;
        popcnt(v_shift) == v_shift.count_ones()
    }

    let mut samples: Vec<u64> = vec![
        0,
        1,
        2,
        3,
        0xff,
        0xdeadbeef,
        0x8000000000000000,
        u64::MAX,
    ];
    for _ in 0..200 {
        samples.push(rand::random::<u64>());
    }
    for v in samples {
        assert!(prop(v));
    }
}

#[test]
fn popcnt_lookup_test() {
    fn prop(v: u64) -> bool {
        if popcnt_lookup(v) != v.count_ones() {
            return false;
        }

        let v_shift = v << 32;
        popcnt_lookup(v_shift) == v_shift.count_ones()
    }

    let mut samples: Vec<u64> = vec![
        0,
        1,
        2,
        3,
        0xff,
        0xdeadbeef,
        0x8000000000000000,
        u64::MAX,
    ];
    for _ in 0..200 {
        samples.push(rand::random::<u64>());
    }
    for v in samples {
        assert!(prop(v));
    }
}

#[test]
fn byte_table_test() {
    let table = compute_byte_table();
    assert_eq!(table.len(), 256);
    for i in 0..256usize {
        assert_eq!(u32::from(table[i]), (i as u64).count_ones());
    }
}

#[test]
fn reverse_lines_test() {
    let lines = vec![
        String::from("one"),
        String::from("two"),
        String::from("three"),
    ];
    let reversed = reverse_lines(lines);
    assert_eq!(
        reversed,
        vec![
            String::from("three"),
            String::from("two"),
            String::from("one"),
        ]
    );
}

#[test]
fn parse_label_test() {
    assert_eq!(parse_label(b"0"), Some(0));
    assert_eq!(parse_label(b"42"), Some(42));
    assert_eq!(parse_label(b"+7"), Some(7));
    assert_eq!(parse_label(b"18446744073709551615"), Some(usize::MAX));
    assert_eq!(parse_label(b"18446744073709551616"), None);
    assert_eq!(parse_label(b""), None);
    assert_eq!(parse_label(b"+"), None);
    assert_eq!(parse_label(b"-3"), None);
    assert_eq!(parse_label(b"1x2"), None);
    assert_eq!(parse_label(b" 5"), None);
}
