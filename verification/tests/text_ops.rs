use email_assistant::text::{
    before_first, chars_of, concatenate, contains_chars, cut_once, decimal_string, find, replace,
    same_chars, split, string_of, to_lowercase,
};

fn c(s: &str) -> Vec<char> {
    s.chars().collect()
}

fn pieces(v: Vec<Vec<char>>) -> Vec<String> {
    v.iter().map(|p| p.iter().collect()).collect()
}

#[test]
fn chars_round_trip() {
    let s = "Grüße, été\r\n";
    assert_eq!(chars_of(s), c(s));
    assert_eq!(string_of(&chars_of(s)), s.to_string());
}

#[test]
fn split_matches_std_split() {
    let cases = [
        ("a--b--c", "--"),
        ("--a--", "--"),
        ("abc", "x"),
        ("", "x"),
        ("aaaa", "aa"),
        ("aaa", "aa"),
        ("abc", ""),
        ("", ""),
    ];
    for (s, p) in cases {
        let expected: Vec<String> = s.split(p).map(|x| x.to_string()).collect();
        assert_eq!(pieces(split(&c(s), &c(p))), expected, "split {:?} on {:?}", s, p);
    }
}

#[test]
fn split_on_empty_pattern() {
    assert_eq!(pieces(split(&c("ab"), &c(""))), vec!["", "a", "b", ""]);
}

#[test]
fn cut_once_matches_std_splitn() {
    let cases = [("head\r\n\r\nbody\r\n\r\nmore", "\r\n\r\n"), ("no blank line", "\r\n\r\n"), ("abc", "")];
    for (s, p) in cases {
        let expected: Vec<String> = s.splitn(2, p).map(|x| x.to_string()).collect();
        let (head, rest) = cut_once(&c(s), &c(p));
        let mut got = vec![head.iter().collect::<String>()];
        if let Some(r) = rest {
            got.push(r.iter().collect());
        }
        assert_eq!(got, expected);
    }
}

#[test]
fn before_first_is_first_split_piece() {
    for (s, p) in [("abc\r\n--B--\r\nrest", "\r\n--B--\r\n"), ("abc", "zz"), ("abc", "")] {
        let expected = s.split(p).next().unwrap().to_string();
        assert_eq!(string_of(&before_first(&c(s), &c(p))), expected);
    }
}

#[test]
fn replace_matches_std_replace() {
    for (s, from, to) in [("a\r\nb\r\n", "\r\n", " "), ("a\r\n\r\nb", "\r\n", ""), ("aaa", "aa", "b"), ("xyz", "q", "r")] {
        assert_eq!(string_of(&replace(&c(s), &c(from), &c(to))), s.replace(from, to));
    }
}

#[test]
fn lowercase_matches_std() {
    let s = "CoOPTATION Ärger Z@[";
    assert_eq!(string_of(&to_lowercase(&c(s))), s.to_ascii_lowercase());
    let once = to_lowercase(&c(s));
    assert_eq!(to_lowercase(&once), once);
}

#[test]
fn find_and_contains() {
    assert_eq!(find(&c("abcabc"), &c("ca"), 0), Some(2));
    assert_eq!(find(&c("abcabc"), &c("bc"), 2), Some(4));
    assert_eq!(find(&c("abc"), &c("zz"), 0), None);
    assert_eq!(find(&c("abc"), &c(""), 1), Some(1));
    assert!(contains_chars(&c("hello"), &c("ll")));
    assert!(!contains_chars(&c("hello"), &c("lo!")));
    assert!(contains_chars(&c(""), &c("")));
}

#[test]
fn same_chars_compares_contents() {
    assert!(same_chars(&c("abc"), &c("abc")));
    assert!(!same_chars(&c("abc"), &c("abd")));
    assert!(!same_chars(&c("abc"), &c("ab")));
}

#[test]
fn concat_and_decimal() {
    assert_eq!(concatenate("foo", "bar"), "foobar");
    for n in [0u32, 7, 10, 42, 1000, u32::MAX] {
        assert_eq!(decimal_string(n), n.to_string());
    }
}

#[test]
fn split_pieces_join_back() {
    for (s, p) in [("a--b----c--", "--"), ("plain", "--"), ("", "\r\n")] {
        let parts = pieces(split(&c(s), &c(p)));
        assert!(!parts.is_empty());
        assert_eq!(parts.join(p), s);
        for piece in &parts {
            assert!(!piece.contains(p));
        }
    }
}
