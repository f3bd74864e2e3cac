use rocket_i18n::text::{chars_of, is_one_of, split_chars, string_of};

fn pieces(s: &str, seps: &str) -> Vec<String> {
    split_chars(&chars_of(s), &chars_of(seps))
        .iter()
        .map(string_of)
        .collect()
}

#[test]
fn chars_and_back() {
    assert_eq!(chars_of("ab\u{e9}"), vec!['a', 'b', '\u{e9}']);
    assert_eq!(chars_of(""), Vec::<char>::new());
    assert_eq!(string_of(&vec!['h', 'i', '\u{2713}']), "hi\u{2713}");
    assert_eq!(string_of(&Vec::new()), "");
    assert_eq!(string_of(&chars_of("round trip")), "round trip");
}

#[test]
fn one_of_the_separators() {
    let seps = vec!['-', ';'];
    assert!(is_one_of('-', &seps));
    assert!(is_one_of(';', &seps));
    assert!(!is_one_of(',', &seps));
    assert!(!is_one_of('-', &Vec::new()));
}

#[test]
fn split_keeps_empty_pieces() {
    assert_eq!(pieces("a,b,c", ","), vec!["a", "b", "c"]);
    assert_eq!(pieces("", ","), vec![""]);
    assert_eq!(pieces(",", ","), vec!["", ""]);
    assert_eq!(pieces("a,,b,", ","), vec!["a", "", "b", ""]);
    assert_eq!(pieces(",a", ","), vec!["", "a"]);
    assert_eq!(pieces("abc", ","), vec!["abc"]);
}

#[test]
fn split_on_any_separator() {
    assert_eq!(pieces("fr-FR;q=0.8", "-;"), vec!["fr", "FR", "q=0.8"]);
    assert_eq!(pieces("en;q=0.8", "-;"), vec!["en", "q=0.8"]);
    assert_eq!(pieces("a-b", ""), vec!["a-b"]);
}

#[test]
fn split_has_one_piece_more_than_separators() {
    assert_eq!(pieces("{0} and {1}", "}"), vec!["{0", " and {1", ""]);
    assert_eq!(pieces("}}}", "}").len(), 4);
}
