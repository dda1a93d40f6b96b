use env_to_cm::{parse, EnvToken, ParseConfig, ParseError};

fn pair(k: &str, v: &str) -> EnvToken {
    EnvToken::Pair((String::from(k), String::from(v)))
}

fn keep_all() -> ParseConfig {
    ParseConfig { preserve_comments: true, preserve_whitespace: true }
}

#[test]
fn parse_good() {
    let actual = parse("value1=hello\nvalue2=\n", ParseConfig::default()).unwrap();
    assert_eq!(actual, vec![pair("value1", "hello"), pair("value2", "")]);
}

#[test]
fn parse_bad() {
    let err = parse("key1\nkey2\n", ParseConfig::default()).unwrap_err();
    assert_eq!(err, ParseError::InvalidFormat((0, String::from("key1"))));
}

#[test]
fn parse_empty() {
    assert_eq!(parse("", ParseConfig::default()).unwrap_err(), ParseError::Empty);
}

#[test]
fn parse_whitespace_only_is_empty_for_every_config() {
    for text in [" ", "\n", "  \t\n\r\n", "\u{3000}\n"] {
        assert_eq!(parse(text, ParseConfig::default()).unwrap_err(), ParseError::Empty);
        assert_eq!(parse(text, keep_all()).unwrap_err(), ParseError::Empty);
    }
}

#[test]
fn parse_keeps_comments_and_blanks() {
    let actual = parse("# note\na=b\n\n", keep_all()).unwrap();
    assert_eq!(
        actual,
        vec![EnvToken::Comment(String::from("note")), pair("a", "b"), EnvToken::Blank]
    );
}

#[test]
fn parse_drops_comments_and_blanks() {
    let actual = parse("# note\na=b\n\n", ParseConfig::default()).unwrap();
    assert_eq!(actual, vec![pair("a", "b")]);
}

#[test]
fn parse_comment_text_follows_first_hash() {
    let config = ParseConfig { preserve_comments: true, preserve_whitespace: false };
    let actual = parse("   #  a # b=c\nk=v", config).unwrap();
    assert_eq!(actual, vec![EnvToken::Comment(String::from("a # b=c")), pair("k", "v")]);
}

#[test]
fn parse_splits_at_first_equals() {
    let actual = parse(" k = a=b==\n", ParseConfig::default()).unwrap();
    assert_eq!(actual, vec![pair(" k ", " a=b==")]);
}

#[test]
fn parse_blank_lines_only_with_whitespace_flag() {
    let config = ParseConfig { preserve_comments: false, preserve_whitespace: true };
    let actual = parse("a=1\n   \n# c\nb=2", config).unwrap();
    assert_eq!(actual, vec![pair("a", "1"), EnvToken::Blank, pair("b", "2")]);
}

#[test]
fn parse_invalid_line_reports_index_and_untrimmed_text() {
    let err = parse("a=1\n# c\n\n  bad line  \nalso bad\n", keep_all()).unwrap_err();
    assert_eq!(err, ParseError::InvalidFormat((3, String::from("  bad line  "))));
}

#[test]
fn parse_crlf_line_endings() {
    let actual = parse("a=1\r\nb=2\r\n", ParseConfig::default()).unwrap();
    assert_eq!(actual, vec![pair("a", "1"), pair("b", "2")]);
}

#[test]
fn parse_final_line_without_newline_keeps_carriage_return() {
    let actual = parse("a=1\r\nb=2\r", ParseConfig::default()).unwrap();
    assert_eq!(actual, vec![pair("a", "1"), pair("b", "2\r")]);
}

#[test]
fn parse_pairs_are_the_same_under_every_config() {
    let text = "# head\n\nx=1\n  # inner\ny=\n\nz=a=b\n";
    let pairs = |ts: Vec<EnvToken>| -> Vec<EnvToken> {
        ts.into_iter().filter(|t| matches!(t, EnvToken::Pair(_))).collect()
    };
    let expected = vec![pair("x", "1"), pair("y", ""), pair("z", "a=b")];
    for (c, w) in [(false, false), (false, true), (true, false), (true, true)] {
        let config = ParseConfig { preserve_comments: c, preserve_whitespace: w };
        assert_eq!(pairs(parse(text, config).unwrap()), expected);
    }
}

#[test]
fn parse_error_is_the_same_under_every_config() {
    let text = "# head\n\nx=1\noops\n";
    for (c, w) in [(false, false), (false, true), (true, false), (true, true)] {
        let config = ParseConfig { preserve_comments: c, preserve_whitespace: w };
        assert_eq!(
            parse(text, config).unwrap_err(),
            ParseError::InvalidFormat((3, String::from("oops")))
        );
    }
}

#[test]
fn parse_unicode_text() {
    let actual = parse("ключ=значение\n\u{a0}\n", ParseConfig::default()).unwrap();
    assert_eq!(actual, vec![pair("ключ", "значение")]);
}
