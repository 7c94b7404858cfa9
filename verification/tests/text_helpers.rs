use rdoc_mcp::text::{chars_of, find, find_from, join_text, matches_at, piece, without_leading};

fn chars(s: &str) -> Vec<char> {
    s.chars().collect()
}

#[test]
fn chars_of_gives_the_characters() {
    assert_eq!(chars_of(""), Vec::<char>::new());
    assert_eq!(chars_of("añb"), vec!['a', 'ñ', 'b']);
}

#[test]
fn find_gives_the_first_occurrence() {
    assert_eq!(find(&chars("a::b::c"), &chars("::")), Some(1));
    assert_eq!(find(&chars("abc"), &chars("::")), None);
    assert_eq!(find(&chars("abc"), &chars("")), Some(0));
    assert_eq!(find(&chars(""), &chars("")), Some(0));
    assert_eq!(find(&chars(""), &chars("a")), None);
    assert_eq!(find(&chars("aab"), &chars("ab")), Some(1));
    assert_eq!(find(&chars("ab"), &chars("abc")), None);
    assert_eq!(find(&chars("xyz"), &chars("z")), Some(2));
}

#[test]
fn find_agrees_with_std_on_ascii_texts() {
    let texts = ["", "a", "::", "a::b", ":a:b::", "<pre></pre>", "aaaa", "abababc"];
    let patterns = ["", "a", ":", "::", "ab", "abc", "</pre>", "aa"];
    for text in texts {
        for pattern in patterns {
            assert_eq!(find(&chars(text), &chars(pattern)), text.find(pattern));
        }
    }
}

#[test]
fn find_from_starts_at_the_given_position() {
    let text = chars("a::b::c");
    assert_eq!(find_from(&text, &chars("::"), 0), Some(1));
    assert_eq!(find_from(&text, &chars("::"), 1), Some(1));
    assert_eq!(find_from(&text, &chars("::"), 2), Some(4));
    assert_eq!(find_from(&text, &chars("::"), 5), None);
    assert_eq!(find_from(&text, &chars(""), 7), Some(7));
    assert_eq!(find_from(&text, &chars(""), 8), None);
    assert_eq!(find_from(&text, &chars("c"), 100), None);
}

#[test]
fn matches_at_tests_one_position() {
    let text = chars("hello");
    assert!(matches_at(&text, &chars("ell"), 1));
    assert!(!matches_at(&text, &chars("ell"), 0));
    assert!(!matches_at(&text, &chars("lo"), 4));
    assert!(matches_at(&text, &chars(""), 5));
    assert!(!matches_at(&text, &chars(""), 6));
    assert!(!matches_at(&text, &chars("hello!"), 0));
}

#[test]
fn piece_cuts_by_characters() {
    assert_eq!(piece("hello", 1, 3), "el");
    assert_eq!(piece("hello", 0, 5), "hello");
    assert_eq!(piece("hello", 2, 2), "");
    assert_eq!(piece("añb", 1, 3), "ñb");
}

#[test]
fn without_leading_drops_the_leading_run_only() {
    assert_eq!(without_leading("///a/b/", '/'), "a/b/");
    assert_eq!(without_leading("a/b", '/'), "a/b");
    assert_eq!(without_leading("", '/'), "");
    assert_eq!(without_leading("////", '/'), "");
    for text in ["/x", "//x//", "x", "", "/", "é/", "/é"] {
        assert_eq!(without_leading(text, '/'), text.trim_start_matches('/'));
    }
}

#[test]
fn join_text_puts_the_separator_between_parts() {
    let none: Vec<String> = Vec::new();
    assert_eq!(join_text(&none, " "), "");
    assert_eq!(join_text(&vec!["a".to_string()], " "), "a");
    assert_eq!(join_text(&vec!["a".to_string(), "b".to_string()], " "), "a b");
    assert_eq!(
        join_text(&vec!["".to_string(), "b".to_string(), "".to_string()], ", "),
        ", b, "
    );
    let parts = vec!["x".to_string(), "y".to_string(), "z".to_string()];
    assert_eq!(join_text(&parts, "--"), parts.join("--"));
}
