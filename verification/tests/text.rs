use pars::text::{blank, chars_of, split_first, str_eq};

#[test]
fn chars_of_lists_characters() {
    assert_eq!(chars_of("aé"), vec!['a', 'é']);
    assert_eq!(chars_of(""), Vec::<char>::new());
}

#[test]
fn str_eq_compares_characters() {
    assert!(str_eq("-r", "-r"));
    assert!(!str_eq("-r", "-e"));
    assert!(!str_eq("-r", "-r "));
    assert!(str_eq("", ""));
}

#[test]
fn split_first_cuts_at_the_first_delimiter() {
    assert_eq!(split_first("localhost:4466/2", ':'), ("localhost", Some("4466/2")));
    assert_eq!(split_first("a:b:c", ':'), ("a", Some("b:c")));
    assert_eq!(split_first("abc", ':'), ("abc", None));
    assert_eq!(split_first(":x", ':'), ("", Some("x")));
    assert_eq!(split_first("x:", ':'), ("x", Some("")));
}

#[test]
fn blank_lines_hold_only_white_space() {
    assert!(blank(""));
    assert!(blank("  \n"));
    assert!(blank("\t\r\n\u{3000}"));
    assert!(!blank("ls\n"));
    assert!(!blank(" x "));
}

#[test]
fn is_whitespace_agrees_with_std_on_every_char() {
    for c in (0u32..=0x10ffff).filter_map(char::from_u32) {
        assert_eq!(pars::text::is_whitespace(c), c.is_whitespace(), "on U+{:04X}", c as u32);
    }
}
