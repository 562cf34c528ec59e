use assay::redact::Json;
use assay::yaml::{decode, decode_all, encode, tag_mode, TagMode, TagsOption, Yaml};

fn s(t: &str) -> String {
    t.to_string()
}

fn reference() -> Json {
    Json::Object(vec![(
        s("!reference"),
        Json::Array(vec![Json::Str(s(".setup")), Json::Str(s("script"))]),
    )])
}

#[test]
fn tags_wrap_unless_told_to_strip() {
    assert_eq!(tag_mode("yaml.parse", &TagsOption::Absent), Ok(TagMode::Wrap));
    assert_eq!(tag_mode("yaml.parse", &TagsOption::Text(s("wrap"))), Ok(TagMode::Wrap));
    assert_eq!(tag_mode("yaml.parse", &TagsOption::Text(s("strip"))), Ok(TagMode::Strip));
}

#[test]
fn an_unknown_tags_option_is_refused_by_name() {
    assert_eq!(
        tag_mode("yaml.parse", &TagsOption::Text(s("keep"))),
        Err(s("yaml.parse: tags must be \"wrap\" or \"strip\", got \"keep\""))
    );
    assert_eq!(
        tag_mode("yaml.parse_all", &TagsOption::Other(s("number"))),
        Err(s("yaml.parse_all: tags must be \"wrap\" or \"strip\", got number"))
    );
}

#[test]
fn a_one_key_table_keyed_by_a_tag_encodes_as_a_tagged_node() {
    assert_eq!(
        encode(reference()),
        Yaml::Tagged(
            s("!reference"),
            Box::new(Yaml::Sequence(vec![Yaml::Str(s(".setup")), Yaml::Str(s("script"))]))
        )
    );
}

#[test]
fn a_tag_key_among_others_stays_an_ordinary_key() {
    let doc = Json::Object(vec![
        (s("!reference"), Json::Number(s("1"))),
        (s("b"), Json::Bool(true)),
    ]);
    assert_eq!(
        encode(doc),
        Yaml::Mapping(vec![
            (Yaml::Str(s("!reference")), Yaml::Number(s("1"))),
            (Yaml::Str(s("b")), Yaml::Bool(true)),
        ])
    );
    let plain_key = Json::Object(vec![(s("reference"), Json::Null)]);
    assert_eq!(encode(plain_key), Yaml::Mapping(vec![(Yaml::Str(s("reference")), Yaml::Null)]));
}

#[test]
fn a_tagged_node_decodes_wrapped_or_stripped() {
    let node = Yaml::Tagged(s("!reference"), Box::new(Yaml::Str(s("x"))));
    assert_eq!(
        decode(node, TagMode::Wrap, "yaml.parse"),
        Ok(Json::Object(vec![(s("!reference"), Json::Str(s("x")))]))
    );
    let node = Yaml::Tagged(s("!reference"), Box::new(Yaml::Str(s("x"))));
    assert_eq!(decode(node, TagMode::Strip, "yaml.parse"), Ok(Json::Str(s("x"))));
}

#[test]
fn a_mapping_key_that_is_not_a_string_is_refused() {
    let node = Yaml::Sequence(vec![Yaml::Mapping(vec![(Yaml::Number(s("1")), Yaml::Str(s("one")))])]);
    assert_eq!(
        decode(node, TagMode::Wrap, "yaml.parse"),
        Err(s("yaml.parse: unsupported YAML mapping key: expected a string"))
    );
}

#[test]
fn empty_documents_of_a_stream_are_left_out() {
    let docs = vec![
        Yaml::Null,
        Yaml::Mapping(vec![(Yaml::Str(s("a")), Yaml::Number(s("1")))]),
        Yaml::Null,
        Yaml::Str(s("b")),
    ];
    assert_eq!(
        decode_all(docs, TagMode::Wrap, "yaml.parse_all"),
        Ok(vec![Json::Object(vec![(s("a"), Json::Number(s("1")))]), Json::Str(s("b"))])
    );
}

#[test]
fn encoding_then_decoding_wrapped_gives_the_document_back() {
    let doc = Json::Object(vec![
        (s("job"), reference()),
        (s("n"), Json::Number(s("-3"))),
        (s("list"), Json::Array(vec![Json::Null, reference()])),
    ]);
    let again = decode(encode(doc), TagMode::Wrap, "yaml.parse");
    let expected = Json::Object(vec![
        (s("job"), reference()),
        (s("n"), Json::Number(s("-3"))),
        (s("list"), Json::Array(vec![Json::Null, reference()])),
    ]);
    assert_eq!(again, Ok(expected));
}

#[test]
fn encoding_then_decoding_stripped_keeps_only_payloads() {
    let doc = Json::Object(vec![(s("job"), reference())]);
    let again = decode(encode(doc), TagMode::Strip, "yaml.parse");
    assert_eq!(
        again,
        Ok(Json::Object(vec![(
            s("job"),
            Json::Array(vec![Json::Str(s(".setup")), Json::Str(s("script"))])
        )]))
    );
}
