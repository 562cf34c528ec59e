use assay::cli::{
    discovery_paths, json_source, resolve_api_key, table_lines, urlencoding_encode, ConfigFile,
    JsonSource, Output,
};
use std::str::FromStr;

#[test]
fn encodes_json_like_strings() {
    let encoded = urlencoding_encode(r#"{"env":"prod"}"#);
    assert_eq!(encoded, "%7B%22env%22%3A%22prod%22%7D");
}

#[test]
fn leaves_safe_chars_alone() {
    assert_eq!(urlencoding_encode("abc-123_XYZ"), "abc-123_XYZ");
}

#[test]
fn non_ascii_is_encoded_byte_by_byte() {
    assert_eq!(urlencoding_encode("é ~."), "%C3%A9%20~.");
}

#[test]
fn parses_output_formats() {
    assert_eq!(Output::from_str("table").unwrap(), Output::Table);
    assert_eq!(Output::from_str("JSON").unwrap(), Output::Json);
    assert_eq!(Output::from_str("jsonl").unwrap(), Output::Jsonl);
    assert_eq!(Output::from_str("yaml").unwrap(), Output::Yaml);
    assert_eq!(Output::from_str("yml").unwrap(), Output::Yaml);
    assert!(Output::from_str("junk").is_err());
}

#[test]
fn an_unknown_format_is_named_in_the_refusal() {
    assert_eq!(
        Output::from_str("XML").unwrap_err(),
        "unknown output format 'xml' (expected table, json, jsonl, yaml)"
    );
    assert_eq!(Output::from_user_string("Yml"), Some(Output::Yaml));
    assert_eq!(Output::from_user_string("csv"), None);
}

#[test]
fn table_columns_are_as_wide_as_their_widest_value() {
    let rows = vec![
        vec!["alpha".to_string(), "1".to_string(), "x".to_string()],
        vec!["b".to_string(), "12345".to_string(), "yy".to_string()],
    ];
    let lines = table_lines(&["NAME", "ID", "TAG"], &rows);
    assert_eq!(lines, vec!["NAME   ID     TAG", "alpha  1      x", "b      12345  yy"]);
}

#[test]
fn a_row_shorter_than_the_header_prints_what_it_has() {
    let rows = vec![vec!["a".to_string()]];
    let lines = table_lines(&["ONE", "TWO"], &rows);
    assert_eq!(lines, vec!["ONE  TWO", "a"]);
}

#[test]
fn api_key_file_wins_over_literal() {
    let cfg = ConfigFile {
        api_key: Some("from-literal".into()),
        api_key_file: Some("/run/secrets/key.txt".into()),
        ..ConfigFile::default()
    };
    let resolved = resolve_api_key(&cfg, Some("  secret-from-file\n")).unwrap();
    assert_eq!(resolved, "secret-from-file");
}

#[test]
fn api_key_literal_when_no_file() {
    let cfg = ConfigFile { api_key: Some("only-literal".into()), ..ConfigFile::default() };
    let resolved = resolve_api_key(&cfg, None).unwrap();
    assert_eq!(resolved, "only-literal");
}

#[test]
fn no_api_key_returns_none() {
    let cfg = ConfigFile::default();
    assert!(resolve_api_key(&cfg, None).is_none());
}

#[test]
fn config_discovery_goes_from_user_to_system() {
    assert_eq!(
        discovery_paths(Some("/x"), Some("/h")),
        vec!["/x/assay/config.yaml", "/h/.config/assay/config.yaml", "/etc/assay/config.yaml"]
    );
    assert_eq!(discovery_paths(None, None), vec!["/etc/assay/config.yaml"]);
}

#[test]
fn a_json_argument_names_where_it_comes_from() {
    assert_eq!(json_source("-"), JsonSource::Stdin);
    assert_eq!(json_source("@in.json"), JsonSource::File("in.json".to_string()));
    assert_eq!(json_source("{\"a\":1}"), JsonSource::Literal);
}

#[test]
fn tables_on_a_terminal_and_json_in_a_pipe() {
    assert_eq!(Output::tty_adaptive_default(true), Output::Table);
    assert_eq!(Output::tty_adaptive_default(false), Output::Json);
}
