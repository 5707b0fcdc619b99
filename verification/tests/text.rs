use csv_rs::number::{push_decimal, push_hex_digits, push_numeral, read_number};
use csv_rs::text::{
    chars_of, eq_ignoring_case, join, same_text, split_at_each, split_at_first, split_lines,
    split_words, string_of, trim, trim_trailing, white_space,
};

const SAMPLES: [&str; 14] = [
    "",
    " ",
    "a",
    "a b",
    "  a\tb\u{85}c  ",
    "a\r\nb\nc\r",
    "\n",
    "\r\n\r\n",
    "a\n\nb",
    "::",
    "a:b::c:",
    "\u{2003}x\u{1680}y\u{205f}",
    "caf\u{e9} \u{1f600}",
    "end\r\r\n",
];

#[test]
fn white_space_is_that_of_unicode() {
    for n in 0..=0x10ffff_u32 {
        if let Some(c) = char::from_u32(n) {
            assert_eq!(white_space(c), c.is_whitespace(), "{n:x}");
        }
    }
}

#[test]
fn texts_are_split_as_strings_are() {
    for sample in SAMPLES {
        let chars = chars_of(sample);
        assert_eq!(string_of(&chars), sample);
        let strings =
            |pieces: Vec<&[char]>| pieces.iter().map(|p| p.iter().collect()).collect::<Vec<String>>();
        assert_eq!(
            strings(split_words(&chars)),
            sample.split_whitespace().collect::<Vec<_>>()
        );
        assert_eq!(
            strings(split_lines(&chars)),
            sample.lines().collect::<Vec<_>>()
        );
        assert_eq!(
            strings(split_at_each(&chars, ':')),
            sample.split(':').collect::<Vec<_>>()
        );
        assert_eq!(
            split_at_first(&chars, ':').map(|(a, b)| (string_of(a), string_of(b))),
            sample
                .split_once(':')
                .map(|(a, b)| (a.to_string(), b.to_string()))
        );
        assert_eq!(string_of(trim(&chars)), sample.trim());
        assert_eq!(
            string_of(trim_trailing(&chars, ':')),
            sample.trim_end_matches(':')
        );
    }
}

#[test]
fn case_is_ignored_for_ascii_only() {
    for (a, b) in [
        ("", ""),
        ("SECURE", "secure"),
        ("aZ09@[`{", "Az09@[`{"),
        ("@", "`"),
        ("[", "{"),
        ("\u{c9}", "\u{e9}"),
        ("a", "ab"),
        ("\u{212a}", "k"),
    ] {
        assert_eq!(
            eq_ignoring_case(&chars_of(a), b),
            a.eq_ignore_ascii_case(b)
        );
        assert_eq!(same_text(&chars_of(a), &chars_of(b)), a == b);
    }
}

#[test]
fn strings_are_joined_with_separators_between() {
    assert_eq!(join(&vec![], ", "), "");
    assert_eq!(join(&vec!["a".to_string()], ", "), "a");
    assert_eq!(
        join(&vec!["a".to_string(), String::new(), "c".to_string()], "; "),
        "a; ; c"
    );
}

#[test]
fn numbers_are_read_as_the_standard_library_reads_them() {
    for text in [
        "", "+", "-", "0", "+0", "-0", "7", "+7", "++7", "255", "256", "ff", "FF", "100", "fff",
        "1ff", "0ff", "00000000ff", "g", "1 ", " 1", "65535", "ffff", "10000", "4294967295",
        "4294967296", "ffffffff", "100000000", "99999999999999999999", "\u{661}",
    ] {
        let chars = chars_of(text);
        for radix in [2u32, 10, 16, 36] {
            assert_eq!(
                read_number(&chars, radix as u64, 0xff),
                u8::from_str_radix(text, radix).ok().map(u64::from),
                "{text} {radix}"
            );
            assert_eq!(
                read_number(&chars, radix as u64, 0xffff),
                u16::from_str_radix(text, radix).ok().map(u64::from)
            );
            assert_eq!(
                read_number(&chars, radix as u64, 0xffff_ffff),
                u32::from_str_radix(text, radix).ok().map(u64::from)
            );
        }
    }
}

#[test]
fn a_number_that_was_written_is_read_back() {
    for n in [0u64, 1, 9, 10, 35, 36, 255, 65535, 1 << 31, u32::MAX as u64] {
        for radix in [2u64, 10, 16, 36] {
            let mut out = String::new();
            push_numeral(&mut out, n, radix);
            assert_eq!(read_number(&chars_of(&out), radix, 0xffff_ffff), Some(n));
        }
    }
}

#[test]
fn numbers_are_written_as_the_standard_library_writes_them() {
    for n in [0i64, 1, -1, 9, 10, -10, 1234567890, i64::MAX, i64::MIN] {
        let mut out = "n=".to_string();
        push_decimal(&mut out, n);
        assert_eq!(out, format!("n={n}"));
    }
    for n in [0u64, 1, 0xa, 0xff, 0xabc, u64::MAX] {
        let mut out = String::new();
        push_numeral(&mut out, n, 16);
        assert_eq!(out, format!("{n:x}"));
    }
    for n in [0u64, 1, 0xa, 0xff, 0xabc, 0xffff] {
        let mut out = String::new();
        push_hex_digits(&mut out, n, 4);
        assert_eq!(out, format!("{n:04x}"));
    }
}
