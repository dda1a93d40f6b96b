use env_to_cm::{parse, template, EnvToken, ParseConfig, TemplateConfig};

const HEADER_CFG: &str = "apiVersion: v1\nkind: ConfigMap\nmetadata:\n  name: cfg\ndata:\n";

fn pair(k: &str, v: &str) -> EnvToken {
    EnvToken::Pair((String::from(k), String::from(v)))
}

fn render(values: Vec<EnvToken>, name: &str) -> String {
    template(TemplateConfig { values, configmap_name: String::from(name) })
}

#[test]
fn render_parsed_pairs() {
    let values = parse("value1=hello\nvalue2=\n", ParseConfig::default()).unwrap();
    let out = render(values, "cfg");
    assert_eq!(out, format!("{HEADER_CFG}  value1: hello\n  value2: \"\"\n"));
}

#[test]
fn render_empty_tokens_is_header_only() {
    assert_eq!(render(vec![], "cfg"), HEADER_CFG);
}

#[test]
fn render_empty_name() {
    assert_eq!(
        render(vec![], ""),
        "apiVersion: v1\nkind: ConfigMap\nmetadata:\n  name: \ndata:\n"
    );
}

#[test]
fn render_every_token_kind() {
    let values = vec![
        EnvToken::Comment(String::from("note")),
        pair("a", "b"),
        EnvToken::Blank,
        pair("c", ""),
    ];
    let out = render(values, "cfg");
    assert_eq!(out, format!("{HEADER_CFG}  # note\n  a: b\n\n  c: \"\"\n"));
}

#[test]
fn render_empty_value_is_quoted() {
    let out = render(vec![pair("empty", ""), pair("full", "x")], "m");
    assert!(out.contains("  empty: \"\"\n"));
    assert!(!out.contains("  empty: \n"));
    assert!(out.ends_with("  full: x\n"));
}

#[test]
fn render_pairs_round_trip() {
    let pairs = [("alpha", "1"), ("beta", "two words"), ("gamma", "x=y")];
    let values = pairs.iter().map(|(k, v)| pair(k, v)).collect();
    let out = render(values, "cfg");
    let block = out.strip_prefix(HEADER_CFG).unwrap();
    let extracted: Vec<(String, String)> = block
        .lines()
        .map(|l| {
            let l = l.strip_prefix("  ").unwrap();
            let (k, v) = l.split_once(": ").unwrap();
            (k.to_string(), v.to_string())
        })
        .collect();
    let expected: Vec<(String, String)> =
        pairs.iter().map(|(k, v)| (k.to_string(), v.to_string())).collect();
    assert_eq!(extracted, expected);
}

#[test]
fn render_passes_text_through_unescaped() {
    let out = render(vec![pair("k: x", "\"q\" #y")], "a b");
    assert_eq!(
        out,
        "apiVersion: v1\nkind: ConfigMap\nmetadata:\n  name: a b\ndata:\n  k: x: \"q\" #y\n"
    );
}
