use local_ham_dashboard::text::{
    chars_of, contains_chars, equal_chars, find_chars, int_chars, is_whitespace, split_lines,
    trim_chars, trim_end_chars,
};

fn s(v: &[char]) -> String {
    v.iter().collect()
}

#[test]
fn chars_round_trip() {
    let c = chars_of("héllo ☀");
    assert_eq!(c.len(), 7);
    assert_eq!(s(&c), "héllo ☀");
}

#[test]
fn trim_drops_unicode_whitespace_at_both_ends() {
    let c = chars_of("\u{3000}\t  a b \u{a0}\n");
    assert_eq!(s(&trim_chars(&c)), "a b");
    assert_eq!(s(&trim_end_chars(&c)), "\u{3000}\t  a b");
    assert_eq!(s(&trim_chars(&chars_of(" \u{2028} "))), "");
}

#[test]
fn trim_agrees_with_std() {
    for text in ["  x  ", "\u{85}y\u{200a}", "", "   ", "a", "\r\nz\r\n", "\u{200b}q"] {
        assert_eq!(s(&trim_chars(&chars_of(text))), text.trim());
        assert_eq!(s(&trim_end_chars(&chars_of(text))), text.trim_end());
    }
}

#[test]
fn whitespace_set() {
    assert!(is_whitespace(' '));
    assert!(is_whitespace('\u{205f}'));
    assert!(!is_whitespace('x'));
    assert!(!is_whitespace('\u{200b}'));
}

#[test]
fn find_gives_first_occurrence() {
    let hay = chars_of("abcabc");
    assert_eq!(find_chars(&hay, &chars_of("bc")), Some(1));
    assert_eq!(find_chars(&hay, &chars_of("cd")), None);
    assert_eq!(find_chars(&hay, &chars_of("")), Some(0));
    assert_eq!(find_chars(&chars_of("ab"), &chars_of("abc")), None);
    assert!(contains_chars(&hay, &chars_of("cab")));
    assert!(!contains_chars(&hay, &chars_of("cc")));
}

#[test]
fn lines_agree_with_std() {
    for text in ["a\nb", "a\r\nb\r\n", "a\r", "", "\n\n", "x\n", "one\rtwo\nthree", "\r\n"] {
        let got: Vec<String> = split_lines(&chars_of(text)).iter().map(|l| s(l)).collect();
        let want: Vec<String> = text.lines().map(|l| l.to_string()).collect();
        assert_eq!(got, want, "text {:?}", text);
    }
}

#[test]
fn equal_chars_compares_contents() {
    assert!(equal_chars(&chars_of("good"), &chars_of("good")));
    assert!(!equal_chars(&chars_of("good"), &chars_of("goods")));
    assert!(!equal_chars(&chars_of("good"), &chars_of("gold")));
}

#[test]
fn numerals() {
    assert_eq!(s(&int_chars(0)), "0");
    assert_eq!(s(&int_chars(7)), "7");
    assert_eq!(s(&int_chars(1234)), "1234");
    assert_eq!(s(&int_chars(-45)), "-45");
    assert_eq!(s(&int_chars(i64::MAX)), i64::MAX.to_string());
    assert_eq!(s(&int_chars(i64::MIN)), i64::MIN.to_string());
}
