use skeg_cli::number::{read_uint, write_int, write_uint};
use skeg_cli::text::{
    chars_of, find_from, is_whitespace, same_text, split_half, split_lines, split_pieces,
    split_words, trim,
};

const SAMPLES: [&str; 14] = [
    "",
    " ",
    "a",
    "a b  c",
    " a\tb ",
    "a\nb\n",
    "a\r\nb\r",
    "\n\n",
    "\r\n\r\n",
    "a=b=c",
    "=",
    "x,,y,",
    "\u{a0}\u{3000}w\u{2003}\u{e9}\u{85}",
    "\u{1f600}=\u{1f601}\u{200b}",
];

#[test]
fn texts_are_split_as_std_splits_them() {
    for s in SAMPLES {
        assert_eq!(chars_of(s), s.chars().collect::<Vec<char>>());
        assert_eq!(split_words(s), s.split_whitespace().collect::<Vec<&str>>());
        assert_eq!(split_lines(s), s.lines().collect::<Vec<&str>>());
        assert_eq!(split_pieces(s, ','), s.split(',').collect::<Vec<&str>>());
        assert_eq!(split_half(s, '='), s.split_once('='));
        assert_eq!(trim(s), s.trim());
        for t in SAMPLES {
            assert_eq!(same_text(s, t), s == t);
        }
    }
}

#[test]
fn white_space_is_that_of_std() {
    for u in 0..=0x10_ffff {
        if let Some(c) = char::from_u32(u) {
            assert_eq!(is_whitespace(c), c.is_whitespace());
        }
    }
}

#[test]
fn patterns_are_found_from_a_position_on() {
    let v = chars_of("\u{e9}ab abab");
    assert_eq!(find_from(&v, "ab", 0), Some(1));
    assert_eq!(find_from(&v, "ab", 2), Some(4));
    assert_eq!(find_from(&v, "ab", 7), None);
    assert_eq!(find_from(&v, "", 8), Some(8));
    assert_eq!(find_from(&v, "abc", 0), None);
}

#[test]
fn numbers_are_written_and_read() {
    for n in [0, 9, 10, 99, 100, 12_345, u64::MAX] {
        assert_eq!(write_uint(n as u128), n.to_string());
        assert_eq!(read_uint(&n.to_string(), u64::MAX), Some(n));
    }
    assert_eq!(write_uint(u128::MAX), u128::MAX.to_string());
    for i in [0, -1, 42, i64::MIN, i64::MAX] {
        assert_eq!(write_int(i), i.to_string());
    }
    assert_eq!(read_uint("256", 255), None);
    assert_eq!(read_uint("+255", 255), Some(255));
    assert_eq!(read_uint("000000000000000000000000001", 1), Some(1));
    assert_eq!(read_uint("\u{660}", 9), None);
}
