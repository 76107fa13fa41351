use beckon::ascii::{eq_ignore_case, push_decimal, push_padded};
use beckon::order::sort_strings;
use beckon::split::{join_strings, lines_of, replace_all, split_on};
use beckon::text::{chars_of, contains_str, find_in, is_whitespace, string_of, trim_str};
use beckon::tools::truncate;

#[test]
fn whitespace_is_that_of_char() {
    for n in 0..=0x10ffffu32 {
        if let Some(c) = char::from_u32(n) {
            assert_eq!(is_whitespace(c), c.is_whitespace(), "{n:x}");
        }
    }
}

#[test]
fn trimming_is_that_of_str() {
    for s in ["", " ", "a", "  a b \n", "\u{3000}x\u{a0}", "\t\t"] {
        assert_eq!(trim_str(s), s.trim());
    }
}

#[test]
fn lines_are_those_of_str() {
    for s in ["", "\n", "a", "a\n", "a\r\n", "a\r", "a\n\nb", "\r\n\r\r\nx", "a\rb\nc\r"] {
        let got: Vec<String> = lines_of(&chars_of(s)).iter().map(|l| string_of(l)).collect();
        let want: Vec<String> = s.lines().map(|l| l.to_string()).collect();
        assert_eq!(got, want, "{s:?}");
    }
}

#[test]
fn pieces_are_those_of_str() {
    for s in ["", ";", "a", "a;b", ";a;;b;"] {
        let got: Vec<String> = split_on(&chars_of(s), ';').iter().map(|l| string_of(l)).collect();
        let want: Vec<String> = s.split(';').map(|l| l.to_string()).collect();
        assert_eq!(got, want, "{s:?}");
    }
}

#[test]
fn searching_and_replacing() {
    assert_eq!(find_in(&chars_of("hällo llo"), &chars_of("llo")), Some(2));
    assert_eq!(find_in(&chars_of("abc"), &chars_of("")), Some(0));
    assert_eq!(find_in(&chars_of("abc"), &chars_of("abcd")), None);
    assert!(contains_str("a\n\n\nb", "\n\n\n"));
    assert_eq!(replace_all("aaaa{x}b{x}", "{x}", "8"), "aaaa8b8");
    assert_eq!(replace_all("aaaaa", "aa", "b"), "aaaaa".replace("aa", "b"));
}

#[test]
fn joining() {
    let parts = vec!["a".to_string(), "".to_string(), "b".to_string()];
    assert_eq!(join_strings(&parts, "\r\n"), "a\r\n\r\nb");
    assert_eq!(join_strings(&Vec::new(), "x"), "");
}

#[test]
fn numerals() {
    let mut out = String::new();
    push_decimal(&mut out, u64::MAX);
    push_decimal(&mut out, 70);
    push_padded(&mut out, 7, 3);
    push_padded(&mut out, 1234, 3);
    assert_eq!(out, format!("{}700071234", u64::MAX));
}

#[test]
fn ascii_case() {
    assert!(eq_ignore_case(&chars_of("end:Vevent"), &chars_of("END:VEVENT")));
    assert!(!eq_ignore_case(&chars_of("é"), &chars_of("É")));
}

#[test]
fn sorting_is_that_of_str() {
    let mut v: Vec<String> =
        ["b", "a", "Z", "ä", "a", "ab", "", "\u{10000}", "\u{ffff}"].iter().map(|s| s.to_string()).collect();
    let got = sort_strings(&v);
    v.sort();
    assert_eq!(got, v);
}

#[test]
fn truncating_at_a_character() {
    let mut s = "añb".to_string();
    truncate(&mut s, 2);
    assert_eq!(s, "a");
    let mut s = "añb".to_string();
    truncate(&mut s, 3);
    assert_eq!(s, "añ");
    let mut s = "añb".to_string();
    truncate(&mut s, 4);
    assert_eq!(s, "añb");
}
