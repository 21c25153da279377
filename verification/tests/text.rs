use ha_core::text::{
    after_first, before, byte_len, decode, has_control, is_blank, is_control, is_whitespace, join,
    pop_char, split_lines, starts_with, str_eq, strip_prefix, take_chars, trim, trim_end,
    trim_start,
};

const SAMPLES: [&str; 16] = [
    "",
    " ",
    "a",
    "\n",
    "\r\n",
    "a\nb",
    "a\r\nb\r\n",
    "a\rb",
    "a\r",
    "a\n\nb\n",
    "\u{3000}é\u{85} x \u{2028}",
    "\u{feff} a \u{200b}",
    "日本語\n😀\r\r\n",
    "  a b  ",
    "\u{1f}\u{7f}\u{9f}\u{a0}",
    "\n\r\n \t\r",
];

#[test]
fn character_classes_are_those_of_unicode() {
    for c in '\0'..=char::MAX {
        assert_eq!(is_whitespace(c), c.is_whitespace());
        assert_eq!(is_control(c), c.is_control());
    }
}

#[test]
fn trimming_and_lines_are_those_of_std() {
    for text in SAMPLES {
        assert_eq!(trim_start(text), text.trim_start());
        assert_eq!(trim_end(text), text.trim_end());
        assert_eq!(trim(text), text.trim());
        assert_eq!(is_blank(text), text.trim().is_empty());
        assert_eq!(split_lines(text), text.lines().collect::<Vec<_>>());
        assert_eq!(byte_len(text), text.len());
        assert_eq!(has_control(text), text.chars().any(char::is_control));
    }
}

#[test]
fn searching_is_that_of_std() {
    for text in SAMPLES {
        for needle in SAMPLES {
            assert_eq!(strip_prefix(text, needle), text.strip_prefix(needle));
            assert_eq!(starts_with(text, needle), text.starts_with(needle));
            assert_eq!(
                after_first(text, needle),
                text.find(needle).map(|at| &text[at + needle.len()..])
            );
            assert_eq!(str_eq(text, needle), text == needle);
        }
    }
}

#[test]
fn characters_are_popped_from_the_front() {
    assert_eq!(pop_char("😀é"), Some(('😀', "é")));
    assert_eq!(pop_char("é"), Some(('é', "")));
    assert_eq!(pop_char(""), None);
    assert_eq!(before("日本語", "語"), "日本");
    assert_eq!(before("a", "a"), "");
}

#[test]
fn characters_are_taken_from_the_front() {
    for text in SAMPLES {
        for limit in [0, 1, 2, 3, 100] {
            assert_eq!(
                take_chars(text, limit),
                text.chars().take(limit).collect::<String>()
            );
        }
    }
}

#[test]
fn strings_are_joined() {
    assert_eq!(join(&vec![], ", "), "");
    assert_eq!(join(&vec!["a"], ", "), "a");
    assert_eq!(join(&vec!["a", "", "é"], ", "), "a, , é");
}

#[test]
fn bytes_are_decoded_where_they_are_valid() {
    assert_eq!(decode("日本語".as_bytes()), Some("日本語"));
    assert_eq!(decode(b""), Some(""));
    assert_eq!(decode(&[0xc0, 0x80]), None);
    assert_eq!(decode(&[0xed, 0xa0, 0x80]), None);
    assert_eq!(decode(&[0xe6, 0x97]), None);
}
