use coredump::text::{
    char_is_white_space, chars_of, contains, find, parse_u32, same_text, spells, take_first_piece,
    take_last_piece, trim,
};

const SAMPLES: [&str; 24] = [
    "",
    " ",
    "a",
    "abc",
    "  abc  ",
    "\t\n abc \r\n",
    "\u{a0}x\u{3000}",
    "\u{2003}\u{85}",
    "a b  c",
    "a - b - c",
    " - ",
    " -  - ",
    "a \u{2014} b",
    " \u{2014} \u{2014} ",
    "x \u{2014} \u{2014} y \u{2014} z",
    "..",
    "a.b.c",
    "/usr/bin/zed",
    "aaa",
    "aaaa",
    "zed\0--flag\0",
    "\u{1F600}.rs",
    "+12",
    "0012",
];

const PATTERNS: [&str; 12] =
    [" - ", " \u{2014} ", ".", "/", "\0", "a", "aa", "zed", " ", "  ", "\u{2014}", "abc"];

#[test]
fn white_space_is_what_the_standard_library_calls_so() {
    let mut white = 0;
    for code in 0..=0x10FFFF_u32 {
        if let Some(c) = char::from_u32(code) {
            assert_eq!(char_is_white_space(c), c.is_whitespace(), "U+{:04X}", code);
            if char_is_white_space(c) {
                white += 1;
            }
        }
    }
    assert_eq!(white, 25);
}

#[test]
fn chars_are_those_of_the_text() {
    for text in SAMPLES {
        assert_eq!(chars_of(text), text.chars().collect::<Vec<char>>());
    }
}

#[test]
fn same_text_is_equality() {
    for left in SAMPLES {
        for right in SAMPLES {
            assert_eq!(same_text(left, right), left == right);
            assert_eq!(spells(&chars_of(left), right), left == right);
        }
    }
    assert!(!same_text("abc", "abd"));
    assert!(!same_text("abc", "ab"));
}

#[test]
fn trim_cuts_white_space_off_both_ends() {
    assert_eq!(trim("  a b \n"), "a b");
    assert_eq!(trim("\u{2003}x\u{a0}"), "x");
    assert_eq!(trim(" \t "), "");
    assert_eq!(trim("_ _"), "_ _");
    for text in SAMPLES {
        assert_eq!(trim(text), text.trim());
    }
}

#[test]
fn find_gives_the_leftmost_position_in_characters() {
    assert_eq!(find("a \u{2014} b - c", " - "), Some(5));
    assert_eq!(find("aaa", "aa"), Some(0));
    assert_eq!(find("abc", ""), Some(0));
    assert_eq!(find("", ""), Some(0));
    assert_eq!(find("", "a"), None);
    assert_eq!(find("ab", "abc"), None);
    for text in SAMPLES {
        for pattern in PATTERNS {
            let expected = text.find(pattern).map(|at| text[..at].chars().count());
            assert_eq!(find(text, pattern), expected);
            assert_eq!(contains(text, pattern), text.contains(pattern));
        }
    }
}

#[test]
fn first_piece_stands_before_the_first_separator() {
    assert_eq!(take_first_piece("a - b - c", " - "), "a");
    assert_eq!(take_first_piece(" - b", " - "), "");
    assert_eq!(take_first_piece("abc", " - "), "abc");
    assert_eq!(take_first_piece("abc", ""), "abc");
    for text in SAMPLES {
        for separator in PATTERNS {
            assert_eq!(take_first_piece(text, separator), text.split(separator).next().unwrap());
        }
    }
}

#[test]
fn last_piece_follows_the_last_separator() {
    assert_eq!(take_last_piece("a - b - c", " - "), "c");
    assert_eq!(take_last_piece("a - ", " - "), "");
    assert_eq!(take_last_piece("abc", " - "), "abc");
    assert_eq!(take_last_piece("abc", ""), "abc");
    assert_eq!(take_last_piece("aaa", "aa"), "a");
    assert_eq!(take_last_piece(" -  - x", " - "), "x");
    assert_eq!(take_last_piece(" - - x", " - "), "- x");
    for text in SAMPLES {
        for separator in PATTERNS {
            assert_eq!(take_last_piece(text, separator), text.split(separator).last().unwrap());
        }
    }
}

#[test]
fn numbers_are_read_as_the_standard_library_reads_them() {
    assert_eq!(parse_u32("0"), Some(0));
    assert_eq!(parse_u32("+0"), Some(0));
    assert_eq!(parse_u32("4294967295"), Some(4294967295));
    assert_eq!(parse_u32("4294967296"), None);
    assert_eq!(parse_u32("42949672950"), None);
    assert_eq!(parse_u32(" 1"), None);
    for text in SAMPLES {
        assert_eq!(parse_u32(text), text.parse::<u32>().ok());
    }
    for text in ["1", "10", "+10", "-10", "+", "-", "+-1", "1+", "0x10", "1e3", "१२", "4294967290", "4294967299", "5000000000", "000000000000000000001"] {
        assert_eq!(parse_u32(text), text.parse::<u32>().ok(), "{:?}", text);
    }
}
