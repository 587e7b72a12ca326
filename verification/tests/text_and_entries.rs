use nxmproxy::entries::{place, Entries, Place};
use nxmproxy::text::{
    contains, is_whitespace, replace, same_text, span_of, split_lines, split_once, starts_with,
    to_chars, to_lower, trim,
};

#[test]
fn white_space_is_the_unicode_property() {
    for n in 0..=0x10ffffu32 {
        if let Some(c) = char::from_u32(n) {
            assert_eq!(is_whitespace(c), c.is_whitespace());
        }
    }
}

#[test]
fn trim_agrees_with_std() {
    for s in ["", " ", "a", " a", "a ", "\t a b \r\n", "\u{a0}x\u{3000}", "\u{200b}x", "  \u{85} "] {
        assert_eq!(trim(s), s.trim());
    }
}

#[test]
fn split_once_cuts_at_the_first() {
    assert_eq!(split_once("a=b=c", '='), Some(("a", "b=c")));
    assert_eq!(split_once("=", '='), Some(("", "")));
    assert_eq!(split_once("ä=ö", '='), Some(("ä", "ö")));
    assert_eq!(split_once("abc", '='), None);
    assert_eq!(split_once("", '='), None);
}

#[test]
fn lines_are_the_pieces_between_newlines() {
    assert_eq!(split_lines("a\nb"), vec!["a", "b"]);
    assert_eq!(split_lines("a\r\n\nb\n"), vec!["a\r", "", "b", ""]);
    assert_eq!(split_lines(""), vec![""]);
}

#[test]
fn replace_agrees_with_std() {
    let cases = [
        ("aaa", "aa", "b"),
        ("%1 %1", "%1", "x%1"),
        ("", "a", "b"),
        ("abc", "abcd", "x"),
        ("äbä", "ä", ""),
        ("abab", "ab", "ab"),
    ];
    for (s, pat, with) in cases {
        assert_eq!(replace(s, pat, with), s.replace(pat, with));
        assert_eq!(contains(s, pat), s.contains(pat));
        assert_eq!(starts_with(s, pat), s.starts_with(pat));
    }
    assert!(contains("abc", ""));
    assert!(starts_with("", ""));
}

#[test]
fn lower_case_is_ascii_only() {
    for s in ["", "URL", "uRl", "AZaz09[@`{", "Ä", "ÄB"] {
        assert_eq!(to_lower(s), s.to_ascii_lowercase());
    }
}

#[test]
fn characters_keep_their_order() {
    assert_eq!(to_chars("aä\u{1f600}"), vec!['a', 'ä', '\u{1f600}']);
    assert!(same_text("ä", "ä"));
    assert!(!same_text("a", "ab"));
    assert_eq!(span_of("nxm?x#y", &vec!['?', '#']), 3);
    assert_eq!(span_of("nxm", &vec!['?', '#']), 3);
}

#[test]
fn order_agrees_with_std() {
    let all = ["", "a", "ab", "b", "B", "ä", "\u{ffff}", "\u{10000}", "a\u{0}"];
    for a in all {
        for b in all {
            let p = place(a, b);
            assert_eq!(p == Place::Before, a < b);
            assert_eq!(p == Place::Same, a == b);
            assert_eq!(p == Place::After, a > b);
        }
    }
}

#[test]
fn entries_hold_the_last_value_of_each_key() {
    let mut e = Entries::new();
    assert_eq!(e.len(), 0);
    for (k, v) in [("m", "1"), ("a", "2"), ("z", "3"), ("m", "4"), ("", "5")] {
        e.insert(k.to_string(), v.to_string());
    }
    assert_eq!(e.len(), 4);
    assert_eq!(e.get("m"), Some(&"4".to_string()));
    assert!(e.contains_key(""));
    assert!(!e.contains_key("b"));
    assert_eq!(e.at(0), (&"".to_string(), &"5".to_string()));
    assert_eq!(e.at(3), (&"z".to_string(), &"3".to_string()));
    e.remove("m");
    e.remove("nothing");
    assert_eq!(e.len(), 3);
    assert_eq!(e.get("m"), None);
    assert_eq!(e.at(1).0, "a");
}

#[test]
fn many_entries_are_found_again() {
    let mut e = Entries::new();
    for i in 0..500u32 {
        let n = (i * 7919) % 500;
        e.insert(format!("key{}", n), format!("{}", n));
    }
    assert_eq!(e.len(), 500);
    for n in 0..500u32 {
        assert_eq!(e.get(&format!("key{}", n)), Some(&format!("{}", n)));
    }
    for i in 1..500usize {
        assert!(e.at(i - 1).0 < e.at(i).0);
    }
}
