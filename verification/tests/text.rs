use senate_efd::number::{decimal_of, decimal_of_i32, natural_up_to, parse_i32};
use senate_efd::text::{
    begins, chars_of, has, joined, lowered, pieces_of, position, replaced, same, tail_after,
    text_of, trimmed, white, words_of,
};

const SAMPLES: [&str; 12] = [
    "",
    "a",
    "aaa",
    " a b ",
    "a/b/c",
    "//",
    "\u{a0}x\u{2000}y\u{3000}",
    "MiXeD Case ÄÖ",
    "abcabcabd",
    "\n\t 12 \r",
    "ß&amp;ß",
    "one two  three",
];

fn collect(list: Vec<Vec<char>>) -> Vec<String> {
    list.iter().map(|v| v.iter().collect()).collect()
}

#[test]
fn white_space_agrees_with_std() {
    for c in '\u{0}'..=char::MAX {
        assert_eq!(white(c), c.is_whitespace(), "{c:?}");
    }
}

#[test]
fn small_letters_agree_with_std() {
    for c in '\u{0}'..=char::MAX {
        assert_eq!(lowered(&[c]), vec![c.to_ascii_lowercase()], "{c:?}");
    }
}

#[test]
fn strings_and_characters() {
    for s in SAMPLES {
        assert_eq!(chars_of(s), s.chars().collect::<Vec<_>>());
        assert_eq!(text_of(&chars_of(s)), s);
    }
}

#[test]
fn searching_agrees_with_std() {
    for s in SAMPLES {
        for pat in ["a", "abd", "ab", " ", "/", "xyz", "", "aa"] {
            let chars = chars_of(s);
            let found = s.find(pat).map(|b| s[..b].chars().count());
            assert_eq!(position(&chars, pat, 0), found, "{s:?} {pat:?}");
            assert_eq!(has(&chars, pat), s.contains(pat));
            assert_eq!(begins(&chars, pat), s.starts_with(pat));
            assert_eq!(same(&chars, pat), s == pat);
        }
    }
    assert_eq!(position(&chars_of("abab"), "ab", 1), Some(2));
    assert_eq!(position(&chars_of("abab"), "ab", 3), None);
    assert_eq!(position(&chars_of("ab"), "ab", 7), None);
}

#[test]
fn replacing_agrees_with_std() {
    for s in SAMPLES {
        for (pat, to) in [("a", "bb"), ("aa", "a"), ("abc", ""), (" ", "_"), ("&amp;", "&")] {
            assert_eq!(text_of(&replaced(&chars_of(s), pat, to)), s.replace(pat, to));
        }
    }
}

#[test]
fn words_agree_with_std() {
    for s in SAMPLES {
        let words: Vec<String> = s.split_whitespace().map(String::from).collect();
        assert_eq!(collect(words_of(&chars_of(s))), words);
        assert_eq!(text_of(&joined(&words_of(&chars_of(s)), ' ')), words.join(" "));
    }
}

#[test]
fn trimming_agrees_with_std() {
    for s in SAMPLES {
        assert_eq!(trimmed(&chars_of(s)), s.trim());
        let tail = s.trim_end_matches('/').rsplit('/').next().unwrap_or("");
        assert_eq!(tail_after(&chars_of(s), '/'), tail);
    }
}

#[test]
fn splitting_agrees_with_std() {
    for s in SAMPLES {
        for c in ['/', 'a', ' '] {
            let pieces: Vec<String> = s.split(c).map(String::from).collect();
            assert_eq!(collect(pieces_of(&chars_of(s), c)), pieces);
            assert_eq!(text_of(&joined(&pieces_of(&chars_of(s), c), c)), s);
        }
    }
}

#[test]
fn integers_agree_with_std() {
    for s in [
        "", "0", "7", "007", "+7", "-7", "-0", "+", "-", "--1", "+-1", "1a", "a", " 1", "1 ",
        "2147483647", "2147483648", "-2147483648", "-2147483649", "99999999999999999999", "٣",
        "00000000000000000000000000000000000001", "+2147483647", "1,0", "1.0",
    ] {
        assert_eq!(parse_i32(&chars_of(s)), s.parse::<i32>().ok(), "{s:?}");
        let unsigned = !s.starts_with('+') && !s.starts_with('-');
        let want = if unsigned { s.parse::<u64>().ok() } else { None };
        assert_eq!(natural_up_to(&chars_of(s), u64::MAX), want, "{s:?}");
    }
    assert_eq!(natural_up_to(&chars_of("10"), 9), None);
    assert_eq!(natural_up_to(&chars_of("9"), 9), Some(9));
    assert_eq!(natural_up_to(&chars_of("0"), 0), Some(0));
}

#[test]
fn decimal_notation_agrees_with_std() {
    for n in [0u64, 1, 9, 10, 11, 99, 100, 101, 1234567890, u64::MAX] {
        assert_eq!(text_of(&decimal_of(n)), n.to_string());
        assert_eq!(natural_up_to(&decimal_of(n), u64::MAX), Some(n));
    }
    for n in [0i32, 7, -7, 2024, i32::MAX, i32::MIN] {
        assert_eq!(text_of(&decimal_of_i32(n)), n.to_string());
        assert_eq!(parse_i32(&decimal_of_i32(n)), Some(n));
    }
}
