use sat_tracker::rigctl::{set_frequency, set_mode_bandwidth};
use sat_tracker::text::{chars_of, contains, parse_u32, render_u32, split_words, white_space};

#[test]
fn words_split_on_unicode_whitespace() {
    let words = split_words("  next\t25544\u{3000}\u{2003}x \n");
    assert_eq!(words, vec!["next".to_string(), "25544".to_string(), "x".to_string()]);
    assert_eq!(split_words(""), Vec::<String>::new());
    assert_eq!(split_words(" \u{85}\u{a0} "), Vec::<String>::new());
    assert_eq!(split_words("a"), vec!["a".to_string()]);
}

#[test]
fn words_agree_with_std() {
    for s in ["group add iss 1 2", "  a  b ", "\u{1680}x\u{205f}y\u{200b}z", "é ü\tß"] {
        let std_words: Vec<String> = s.split_whitespace().map(|w| w.to_string()).collect();
        assert_eq!(split_words(s), std_words);
    }
}

#[test]
fn whitespace_matches_char_is_whitespace() {
    for u in 0u32..0x3100 {
        if let Some(c) = char::from_u32(u) {
            assert_eq!(white_space(c), c.is_whitespace(), "{:x}", u);
        }
    }
}

#[test]
fn chars_of_keeps_every_char() {
    assert_eq!(chars_of("aé☃"), vec!['a', 'é', '☃']);
}

#[test]
fn contains_finds_substrings() {
    assert!(contains("newgroup", "new"));
    assert!(contains("xadd", "add"));
    assert!(contains("abc", ""));
    assert!(!contains("ad", "add"));
    assert!(!contains("", "a"));
    assert!(contains("deleté", "eté"));
}

#[test]
fn render_u32_writes_decimal() {
    assert_eq!(render_u32(0), "0");
    assert_eq!(render_u32(7), "7");
    assert_eq!(render_u32(10), "10");
    assert_eq!(render_u32(145800000), "145800000");
    assert_eq!(render_u32(u32::MAX), "4294967295");
}

#[test]
fn parse_u32_accepts_what_std_accepts() {
    for s in ["0", "007", "+12", "4294967295", "4294967296", "", "+", "-1", " 1", "1 ", "12a", "++1", "٣"] {
        assert_eq!(parse_u32(s), s.parse::<u32>().ok(), "{:?}", s);
    }
}

#[test]
fn rendered_numbers_parse_back() {
    for n in [0u32, 1, 9, 10, 99, 100, 25544, u32::MAX] {
        assert_eq!(parse_u32(&render_u32(n)), Some(n));
    }
}

#[test]
fn frequency_command_text() {
    assert_eq!(set_frequency(145800000), "F 145800000\n");
    assert_eq!(set_frequency(0), "F 0\n");
}

#[test]
fn mode_command_text() {
    assert_eq!(set_mode_bandwidth("FM", 15000), "M FM 15000\n");
    assert_eq!(set_mode_bandwidth("", 0), "M  0\n");
}

#[test]
fn frequency_command_reads_back() {
    let c = set_frequency(437800000);
    assert_eq!(parse_u32(&c[2..c.len() - 1]), Some(437800000));
    let m = set_mode_bandwidth("USB", 2400);
    assert_eq!(parse_u32(&m[6..m.len() - 1]), Some(2400));
}
