use env_to_cm::text::{all_space, chars_of, find_char, is_space, skip_space, string_of};

#[test]
fn chars_of_keeps_every_character() {
    assert_eq!(chars_of("a é\n"), vec!['a', ' ', 'é', '\n']);
    assert_eq!(chars_of(""), Vec::<char>::new());
}

#[test]
fn string_of_takes_the_range() {
    let v = vec!['k', '=', 'v', 'é'];
    assert_eq!(string_of(&v, 2, 4), "vé");
    assert_eq!(string_of(&v, 0, 1), "k");
    assert_eq!(string_of(&v, 1, 1), "");
}

#[test]
fn is_space_matches_std() {
    for c in ['\t', '\n', '\u{b}', '\u{c}', '\r', ' ', '\u{85}', '\u{a0}', '\u{1680}', '\u{2000}',
        '\u{200a}', '\u{2028}', '\u{2029}', '\u{202f}', '\u{205f}', '\u{3000}', 'a', '#', '=',
        '\u{200b}', '\u{180e}', '\0']
    {
        assert_eq!(is_space(c), c.is_whitespace(), "{c:?}");
    }
}

#[test]
fn all_space_and_skip_space() {
    let v = chars_of("  \tx y");
    assert!(all_space(&v, 0, 3));
    assert!(!all_space(&v, 0, 4));
    assert!(all_space(&v, 2, 2));
    assert_eq!(skip_space(&v, 0, 6), 3);
    assert_eq!(skip_space(&v, 4, 6), 5);
    assert_eq!(skip_space(&v, 0, 2), 2);
}

#[test]
fn find_char_finds_the_first() {
    let v = chars_of("a=b=c");
    assert_eq!(find_char(&v, 0, 5, '='), Some(1));
    assert_eq!(find_char(&v, 2, 5, '='), Some(3));
    assert_eq!(find_char(&v, 0, 1, '='), None);
    assert_eq!(find_char(&v, 0, 5, '#'), None);
}
