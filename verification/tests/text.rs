use bee::decimal::{parse_u64, write_hundredths, write_number, write_u64};
use bee::text::{
    chars_of, fields_of, is_whitespace, push_all, push_text, same_chars, spells, split_chars,
    string_of, trimmed, Separator,
};

fn chars(s: &str) -> Vec<char> {
    s.chars().collect()
}

fn strings(pieces: Vec<Vec<char>>) -> Vec<String> {
    pieces.into_iter().map(|p| p.into_iter().collect()).collect()
}

const SAMPLES: [&str; 14] = [
    "",
    " ",
    "a",
    "MemTotal:    1000000 kB",
    "  leading and trailing  ",
    "tabs\tand\u{a0}no-break\u{3000}spaces",
    "one\ntwo\r\nthree\n",
    "\n\n",
    "from=a@b.c",
    "a=b=c",
    "=",
    "key = value with spaces ",
    "\u{2003}\u{2003}",
    "x\u{85}y\u{1680}z",
];

#[test]
fn whitespace_is_the_unicode_property() {
    for code in 0u32..=0x10FFFF {
        if let Some(c) = char::from_u32(code) {
            assert_eq!(is_whitespace(c), c.is_whitespace(), "U+{:04X}", code);
        }
    }
}

#[test]
fn chars_of_and_string_of_are_inverse() {
    for s in SAMPLES.iter() {
        assert_eq!(chars_of(s), chars(s));
        assert_eq!(string_of(&chars(s)), *s);
    }
}

#[test]
fn spells_compares_whole_texts() {
    assert!(spells(&chars("MemTotal:"), "MemTotal:"));
    assert!(!spells(&chars("MemTotal"), "MemTotal:"));
    assert!(!spells(&chars("MemTotal:x"), "MemTotal:"));
    assert!(!spells(&chars("memtotal:"), "MemTotal:"));
    assert!(spells(&chars(""), ""));
}

#[test]
fn same_chars_compares_whole_texts() {
    assert!(same_chars(&chars("hw.pagesize:"), &chars("hw.pagesize:")));
    assert!(!same_chars(&chars("hw.pagesize:"), &chars("hw.pagesize")));
    assert!(!same_chars(&chars("hw.pagesize:"), &chars("hw.pagesizE:")));
    assert!(same_chars(&chars(""), &chars("")));
}

#[test]
fn split_at_a_character_is_the_split_of_the_standard_library() {
    for s in SAMPLES.iter() {
        for sep in ['\n', '=', ' '] {
            let expected: Vec<String> = s.split(sep).map(|p| p.to_string()).collect();
            assert_eq!(strings(split_chars(&chars(s), Separator::Char(sep))), expected);
        }
    }
}

#[test]
fn split_keeps_empty_pieces() {
    assert_eq!(strings(split_chars(&chars(""), Separator::Char('='))), vec![""]);
    assert_eq!(strings(split_chars(&chars("="), Separator::Char('='))), vec!["", ""]);
    assert_eq!(strings(split_chars(&chars("a=="), Separator::Char('='))), vec!["a", "", ""]);
    assert_eq!(strings(split_chars(&chars(" a"), Separator::Whitespace)), vec!["", "a"]);
}

#[test]
fn fields_are_the_whitespace_split_of_the_standard_library() {
    for s in SAMPLES.iter() {
        let expected: Vec<String> = s.split_whitespace().map(|p| p.to_string()).collect();
        assert_eq!(strings(fields_of(&chars(s))), expected);
    }
}

#[test]
fn trimmed_is_the_trim_of_the_standard_library() {
    for s in SAMPLES.iter() {
        let ours: String = trimmed(&chars(s)).into_iter().collect();
        assert_eq!(ours, s.trim());
    }
}

#[test]
fn push_appends() {
    let mut v = chars("ab");
    push_text(&mut v, "cd");
    push_all(&mut v, &chars("ef"));
    assert_eq!(v, chars("abcdef"));
}

#[test]
fn parse_u64_is_the_parse_of_the_standard_library() {
    let samples = [
        "",
        "+",
        "-",
        "0",
        "+0",
        "-0",
        "7",
        "007",
        "+42",
        "++42",
        "4 2",
        "42 ",
        " 42",
        "4_2",
        "0x10",
        "1e3",
        "12a",
        "a12",
        "٣",
        "18446744073709551615",
        "18446744073709551616",
        "+18446744073709551615",
        "28446744073709551615",
        "184467440737095516150",
        "000000000000000000000000018446744073709551615",
        "99999999999999999999999999999",
    ];
    for s in samples.iter() {
        assert_eq!(parse_u64(&chars(s)), s.parse::<u64>().ok(), "{:?}", s);
    }
}

#[test]
fn write_u64_is_the_display_of_the_standard_library() {
    for n in [0u64, 1, 9, 10, 11, 99, 100, 101, 1000000, 8589934, u64::MAX] {
        let ours: String = write_u64(n).into_iter().collect();
        assert_eq!(ours, n.to_string());
        assert_eq!(parse_u64(&write_u64(n)), Some(n));
    }
    let big: String = write_number(u128::MAX).into_iter().collect();
    assert_eq!(big, u128::MAX.to_string());
}

#[test]
fn write_hundredths_puts_two_decimals() {
    let text = |h: u128| -> String { write_hundredths(h).into_iter().collect() };
    assert_eq!(text(0), "0.00");
    assert_eq!(text(5), "0.05");
    assert_eq!(text(50), "0.50");
    assert_eq!(text(7000), "70.00");
    assert_eq!(text(6999), "69.99");
    assert_eq!(text(10000), "100.00");
    assert_eq!(text(123456), "1234.56");
}
