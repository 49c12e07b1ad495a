use axumate::utils::text::{
    chars_of, extend_range, extend_str, find_in, matches_at, rfind_in, same_chars, splice_in,
    string_of, trim_bounds, whitespace,
};

fn chars(s: &str) -> Vec<char> {
    s.chars().collect()
}

#[test]
fn chars_and_back() {
    for s in ["", "a", "hello", "➡️ [x] 🚀", "line\r\nline\n"] {
        assert_eq!(chars_of(s), chars(s));
        assert_eq!(string_of(&chars(s)), s);
    }
}

#[test]
fn whitespace_is_that_of_the_standard_library() {
    let mut code: u32 = 0;
    while code <= 0x10FFFF {
        if let Some(c) = char::from_u32(code) {
            assert_eq!(whitespace(c), c.is_whitespace(), "U+{:04X}", code);
        }
        code += 1;
    }
}

#[test]
fn extend_appends() {
    let mut v = chars("ab");
    extend_range(&mut v, &chars("01234"), 1, 3);
    assert_eq!(v, chars("ab12"));
    extend_range(&mut v, &chars("01234"), 2, 2);
    assert_eq!(v, chars("ab12"));
    extend_str(&mut v, "xy");
    assert_eq!(v, chars("ab12xy"));
}

#[test]
fn same_chars_compares() {
    assert!(same_chars(&chars("abc"), &chars("abc")));
    assert!(same_chars(&chars(""), &chars("")));
    assert!(!same_chars(&chars("abc"), &chars("abd")));
    assert!(!same_chars(&chars("abc"), &chars("ab")));
}

#[test]
fn matches_at_each_index() {
    let hay = chars("abcabc");
    let pat = chars("bc");
    assert!(!matches_at(&hay, &pat, 0));
    assert!(matches_at(&hay, &pat, 1));
    assert!(matches_at(&hay, &pat, 4));
    assert!(!matches_at(&hay, &pat, 5));
    assert!(!matches_at(&hay, &pat, 6));
    assert!(!matches_at(&hay, &pat, 100));
    assert!(matches_at(&hay, &chars(""), 6));
    assert!(!matches_at(&hay, &chars(""), 7));
}

#[test]
fn find_agrees_with_the_standard_library() {
    let hays = ["", "a", "use a;\nuse b;\n", "aaaa", "abcabcabc", "xx;yy;zz", "é;ü;"];
    let pats = ["", "a", "use ", ";", "aa", "abc", "bca", "zz", "q", "ü"];
    for hay in hays {
        for pat in pats {
            let h = chars(hay);
            let p = chars(pat);
            let first = hay.find(pat).map(|b| hay[..b].chars().count());
            let last = hay.rfind(pat).map(|b| hay[..b].chars().count());
            assert_eq!(find_in(&h, &p, 0), first, "find {:?} in {:?}", pat, hay);
            assert_eq!(rfind_in(&h, &p), last, "rfind {:?} in {:?}", pat, hay);
        }
    }
}

#[test]
fn find_starts_where_it_is_told() {
    let hay = chars("a;b;c");
    let semi = chars(";");
    assert_eq!(find_in(&hay, &semi, 0), Some(1));
    assert_eq!(find_in(&hay, &semi, 1), Some(1));
    assert_eq!(find_in(&hay, &semi, 2), Some(3));
    assert_eq!(find_in(&hay, &semi, 4), None);
    assert_eq!(find_in(&hay, &semi, 5), None);
    assert_eq!(find_in(&hay, &semi, 50), None);
}

#[test]
fn splice_puts_text_in() {
    assert_eq!(splice_in(&chars("abcd"), 2, &chars("XY")), chars("abXYcd"));
    assert_eq!(splice_in(&chars("abcd"), 0, &chars("XY")), chars("XYabcd"));
    assert_eq!(splice_in(&chars("abcd"), 4, &chars("XY")), chars("abcdXY"));
    assert_eq!(splice_in(&chars(""), 0, &chars("XY")), chars("XY"));
    assert_eq!(splice_in(&chars("abcd"), 2, &chars("")), chars("abcd"));
}

#[test]
fn trim_agrees_with_the_standard_library() {
    for s in ["", " ", "a", "  a  ", "\t\r\n a b \u{a0}\u{3000}", "   ", "a  ", "  a", "\u{2028}x\u{85}"] {
        let v = chars(s);
        let (a, b) = trim_bounds(&v, 0, v.len());
        let got: String = v[a..b].iter().collect();
        assert_eq!(got, s.trim(), "{:?}", s);
    }
}

#[test]
fn trim_stays_inside_its_bounds() {
    let v = chars("ab  cd  ef");
    assert_eq!(trim_bounds(&v, 2, 8), (4, 6));
    assert_eq!(trim_bounds(&v, 2, 4), (4, 4));
    assert_eq!(trim_bounds(&v, 3, 3), (3, 3));
}

#[test]
fn trim_of_white_space_ends_at_the_upper_bound() {
    let v = chars("a   b");
    assert_eq!(trim_bounds(&v, 1, 4), (4, 4));
    assert_eq!(trim_bounds(&v, 1, 5), (4, 5));
    assert_eq!(trim_bounds(&v, 0, 4), (0, 1));
    assert_eq!(trim_bounds(&v, 0, 0), (0, 0));
}
