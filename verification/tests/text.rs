use goojara::text::{
    ascii_uppercase, byte_slice, join, last_piece, push_decimal, push_signed_decimal, replace, split,
    str_eq, string_of, trim_quotes,
};

fn owned(v: &[&str]) -> Vec<String> {
    v.iter().map(|s| s.to_string()).collect()
}

#[test]
fn split_cuts_at_each_separator() {
    assert_eq!(split("a, b, c", ", "), owned(&["a", "b", "c"]));
    assert_eq!(split("abc", ","), owned(&["abc"]));
    assert_eq!(split("", ","), owned(&[""]));
    assert_eq!(split(",a,", ","), owned(&["", "a", ""]));
    assert_eq!(split("aaa", "aa"), owned(&["", "a"]));
}

#[test]
fn split_agrees_with_std() {
    for (s, sep) in [("x | y | z", " | "), ("0\tname\tvalue", "0\t"), ("a/b/c/", "/"), ("é,ü,,", ",")] {
        let expected: Vec<String> = s.split(sep).map(|p| p.to_string()).collect();
        assert_eq!(split(s, sep), expected);
    }
}

#[test]
fn join_of_split_gives_the_text_back() {
    for (s, sep) in [("a,b,,c", ","), ("no separator", "|"), ("||", "|")] {
        assert_eq!(join(&split(s, sep), sep), s);
    }
}

#[test]
fn replace_agrees_with_std() {
    assert_eq!(replace("a\tb\tc", "\t", "="), "a=b=c");
    assert_eq!(replace("Director: Jane Doe", "Director: ", ""), "Jane Doe");
    assert_eq!(replace("xx", "x", "x"), "xx");
}

#[test]
fn last_piece_is_after_the_last_separator() {
    assert_eq!(last_piece("https://site/movie/abc", "/"), "abc");
    assert_eq!(last_piece("plain", "/"), "plain");
    assert_eq!(last_piece("ends/", "/"), "");
}

#[test]
fn trim_quotes_strips_both_ends() {
    assert_eq!(trim_quotes("\"abc\";"), "abc");
    assert_eq!(trim_quotes(";;\"\""), "");
    assert_eq!(trim_quotes("a\"b"), "a\"b");
}

#[test]
fn decimals() {
    let mut s = String::new();
    push_decimal(&mut s, 0);
    push_decimal(&mut s, 1234567890);
    assert_eq!(s, "01234567890");
    let mut t = String::new();
    push_signed_decimal(&mut t, -42);
    push_signed_decimal(&mut t, i64::MIN);
    assert_eq!(t, format!("-42{}", i64::MIN));
}

#[test]
fn byte_slices_and_case() {
    assert_eq!(byte_slice("héllo", 3, 6), "llo");
    assert_eq!(ascii_uppercase("abc123é"), "ABC123é");
    assert!(str_eq("cn", "cn"));
    assert!(!str_eq("cn", "cv"));
    assert_eq!(string_of(&vec!['a', 'ß']), "aß");
}
