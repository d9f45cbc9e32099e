use specs_ultra::text::{
    chars_of, is_whitespace, lines_chars, parse_u64_chars, remove_all_chars, split_chars,
    splitn_chars, str_contains, str_starts_with, trim_str, words_chars,
};

fn strings(v: Vec<Vec<char>>) -> Vec<String> {
    v.into_iter().map(|c| c.into_iter().collect()).collect()
}

const SAMPLES: [&str; 16] = [
    "",
    "a",
    " a ",
    "\n",
    "a\n",
    "a\nb",
    "a\r\nb\r\n",
    "a\rb\r",
    "\n\n x \t\n",
    "  two  words\there ",
    "\u{a0}nbsp\u{3000}",
    "k: v: w",
    "::",
    "1,2,,3,4,5",
    "\u{85}x\u{2028}",
    "tail\r",
];

#[test]
fn whitespace_matches_std_for_every_char() {
    for u in 0..=0x10FFFFu32 {
        if let Some(c) = char::from_u32(u) {
            assert_eq!(is_whitespace(c), c.is_whitespace(), "U+{:04X}", u);
        }
    }
}

#[test]
fn trim_matches_std() {
    for s in SAMPLES {
        assert_eq!(trim_str(s), s.trim());
    }
}

#[test]
fn lines_match_std() {
    for s in SAMPLES {
        let got = strings(lines_chars(&chars_of(s)));
        let want: Vec<String> = s.lines().map(String::from).collect();
        assert_eq!(got, want, "{:?}", s);
    }
}

#[test]
fn words_match_std() {
    for s in SAMPLES {
        let got = strings(words_chars(&chars_of(s)));
        let want: Vec<String> = s.split_whitespace().map(String::from).collect();
        assert_eq!(got, want, "{:?}", s);
    }
}

#[test]
fn splits_match_std() {
    for s in SAMPLES {
        for c in [':', ',', '\n', ' '] {
            let got = strings(split_chars(&chars_of(s), c));
            let want: Vec<String> = s.split(c).map(String::from).collect();
            assert_eq!(got, want);
            for n in 0..6usize {
                let got = strings(splitn_chars(&chars_of(s), n, c));
                let want: Vec<String> = s.splitn(n, c).map(String::from).collect();
                assert_eq!(got, want);
            }
        }
    }
}

#[test]
fn search_matches_std() {
    for s in SAMPLES {
        for p in ["", "a", "b\r", "words", "1,2", "x", ": v"] {
            assert_eq!(str_contains(s, p), s.contains(p));
            assert_eq!(str_starts_with(s, p), s.starts_with(p));
        }
    }
}

#[test]
fn remove_all_matches_replace() {
    for (s, p) in [("Kernel driver in use: nvidia", "Kernel driver in use:"), ("aaaa", "aa"), ("abab", "ba"), ("x", "xyz")] {
        let got: String = remove_all_chars(&chars_of(s), &chars_of(p)).into_iter().collect();
        assert_eq!(got, s.replace(p, ""));
    }
}

#[test]
fn parse_matches_std() {
    for s in ["", "+", "-0", "0", "+7", "007", "12a", " 1", "18446744073709551615", "18446744073709551616", "99999999999999999999999", "++1", "\u{661}"] {
        assert_eq!(parse_u64_chars(&chars_of(s)), s.parse::<u64>().ok(), "{:?}", s);
    }
}
