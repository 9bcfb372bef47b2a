use stik::text::{
    char_is_ws, chars_eq_ignore_ascii_case, collapse_whitespace, contains_chars, decimal_text, lines_chars,
    split_chars, strip_suffixes_chars, trim_str,
};

fn chars(s: &str) -> Vec<char> {
    s.chars().collect()
}

fn text(v: &[char]) -> String {
    v.iter().collect()
}

const SAMPLES: [&str; 10] = [
    "",
    "  a b  ",
    "\u{3000}full width\u{2003}",
    "a\r\nb\n\nc\n",
    "x\ry\r\r\n",
    "\n",
    "one",
    "tab\tand\u{85}next",
    "  \u{a0}",
    "mixed \u{1680}space\u{205f}",
];

#[test]
fn whitespace_matches_char_is_whitespace() {
    for u in 0u32..0x3100 {
        if let Some(c) = char::from_u32(u) {
            assert_eq!(char_is_ws(c), c.is_whitespace(), "{u:x}");
        }
    }
}

#[test]
fn trim_matches_str_trim() {
    for s in SAMPLES {
        assert_eq!(trim_str(s), s.trim(), "{s:?}");
    }
}

#[test]
fn lines_match_str_lines() {
    for s in SAMPLES {
        let expected: Vec<String> = s.lines().map(|l| l.to_string()).collect();
        let got: Vec<String> = lines_chars(&chars(s)).iter().map(|l| text(l)).collect();
        assert_eq!(got, expected, "{s:?}");
    }
}

#[test]
fn collapsing_matches_split_whitespace() {
    for s in SAMPLES {
        let expected = s.split_whitespace().collect::<Vec<_>>().join(" ");
        assert_eq!(text(&collapse_whitespace(&chars(s))), expected, "{s:?}");
    }
}

#[test]
fn splitting_matches_str_split() {
    for s in ["a/b//c/", "", "/", "abc"] {
        let expected: Vec<String> = s.split('/').map(|p| p.to_string()).collect();
        let got: Vec<String> = split_chars(&chars(s), '/').iter().map(|p| text(p)).collect();
        assert_eq!(got, expected, "{s:?}");
    }
}

#[test]
fn other_text_helpers() {
    assert!(chars_eq_ignore_ascii_case(&chars("StIk_RooT"), &chars("stik_root")));
    assert!(!chars_eq_ignore_ascii_case(&chars("É"), &chars("é")));
    assert!(contains_chars(&chars("nothing to commit, clean"), &chars("nothing to commit")));
    assert!(contains_chars(&chars("abc"), &chars("")));
    assert!(!contains_chars(&chars("ab"), &chars("abc")));
    assert_eq!(text(&strip_suffixes_chars(&chars("x.git.git"), &chars(".git"))), "x");
    assert_eq!(decimal_text(0), "0");
    assert_eq!(decimal_text(1234567890), "1234567890");
    assert_eq!(decimal_text(usize::MAX), usize::MAX.to_string());
}
