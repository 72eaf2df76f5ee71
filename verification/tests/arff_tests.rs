//! The ARFF grammar: attribute lines, whole headers, data-row tokens, and
//! the serialize-then-parse round trip.
use rivu::arff::{
    header_to_arff_lines, is_comment_or_empty, parse_attribute_line, parse_header,
    parse_instance_tokens, split_csv_preserving_quotes, strip_surrounding_quotes, AttributeKind,
    DataToken, ParseErrorKind,
};
use rivu::attributes::{Attribute, NominalAttribute, NumericAttribute};
use rivu::instance_header::InstanceHeader;
use std::collections::HashMap;

fn nominal(name: &str, values: &[&str]) -> Attribute {
    let values: Vec<String> = values.iter().map(|v| v.to_string()).collect();
    let mut map = HashMap::new();
    for (i, v) in values.iter().enumerate() {
        map.insert(v.clone(), i);
    }
    Attribute::Nominal(NominalAttribute::with_values(name.to_string(), values, map))
}

fn numeric(name: &str) -> Attribute {
    Attribute::Numeric(NumericAttribute::new(name.to_string()))
}

#[test]
fn parse_attribute_line_missing_type_after_name() {
    let err = parse_attribute_line("@attribute outlook").unwrap_err();
    assert_eq!(err.kind, ParseErrorKind::InvalidData);
}

#[test]
fn parse_attribute_line_name_without_closing_quote() {
    let err = parse_attribute_line("@attribute 'bad {x, y}").unwrap_err();
    assert_eq!(err.kind, ParseErrorKind::InvalidData);
}

#[test]
fn parse_attribute_line_rejects_non_attribute_line() {
    let err = parse_attribute_line("@relation r").unwrap_err();
    assert_eq!(err.kind, ParseErrorKind::InvalidData);
}

#[test]
fn parse_attribute_line_empty_nominal_domain() {
    let err = parse_attribute_line("@attribute a {}").unwrap_err();
    assert_eq!(err.kind, ParseErrorKind::InvalidData);
}

#[test]
fn parse_attribute_line_whitespace_only_nominal_domain() {
    let err = parse_attribute_line("@attribute a {   }").unwrap_err();
    assert_eq!(err.kind, ParseErrorKind::InvalidData);
}

#[test]
fn parse_attribute_line_trailing_comma_nominal_domain() {
    let (name, kind) = parse_attribute_line("@attribute a {x, }").unwrap();
    assert_eq!(name, "a");
    match kind {
        AttributeKind::Nominal(v) => assert_eq!(v, vec!["x"]),
        _ => panic!("expected nominal"),
    }
}

#[test]
fn parse_attribute_line_nominal_missing_closing_brace() {
    let err = parse_attribute_line("@attribute a {x, y").unwrap_err();
    assert_eq!(err.kind, ParseErrorKind::InvalidData);
}

#[test]
fn parse_attribute_line_unsupported_type_string() {
    let err = parse_attribute_line("@attribute note string").unwrap_err();
    assert_eq!(err.kind, ParseErrorKind::InvalidData);
}

#[test]
fn parse_attribute_line_reads_quoted_names_and_numeric_kinds() {
    let (name, kind) = parse_attribute_line("@attribute 'flow rate' numeric").unwrap();
    assert_eq!(name, "flow rate");
    assert!(matches!(kind, AttributeKind::Numeric));

    let (name, kind) = parse_attribute_line("@ATTRIBUTE temp REAL").unwrap();
    assert_eq!(name, "temp");
    assert!(matches!(kind, AttributeKind::Numeric));
}

fn lines(texts: &[&str]) -> Vec<String> {
    texts.iter().map(|s| s.to_string()).collect()
}

#[test]
fn parse_header_unexpected_eof_before_data() {
    let text = lines(&["@relation r", "@attribute a numeric"]);
    let err = parse_header(&text, Some(0)).unwrap_err();
    assert_eq!(err.kind, ParseErrorKind::UnexpectedEof);
}

#[test]
fn parse_header_unsupported_header_directive() {
    let text = lines(&["@relation r", "@foo bar", "@data", "1"]);
    let err = parse_header(&text, Some(0)).unwrap_err();
    assert_eq!(err.kind, ParseErrorKind::InvalidData);
}

#[test]
fn parse_header_attribute_before_relation_is_reprocessed() {
    let text = lines(&["@attribute a numeric", "@data", "1"]);
    let (h, data_start) = parse_header(&text, Some(0)).unwrap();
    assert_eq!(h.relation_name(), "unnamed_relation");
    assert_eq!(h.number_of_attributes(), 1);
    assert_eq!(data_start, 2);
}

#[test]
fn parse_header_reads_relation_attributes_and_data_position() {
    let text = lines(&[
        "% weather data",
        "",
        "@relation weather",
        "@attribute outlook { sunny, overcast, rainy }",
        "@attribute temperature numeric",
        "@attribute play { yes, no }",
        "@data",
        "sunny,85,no",
    ]);
    let (h, data_start) = parse_header(&text, None).unwrap();
    assert_eq!(h.relation_name(), "weather");
    assert_eq!(h.number_of_attributes(), 3);
    assert_eq!(h.class_index(), 2);
    assert_eq!(h.number_of_classes(), 2);
    assert_eq!(data_start, 7);
    match &h.attributes[0] {
        Attribute::Nominal(n) => {
            assert_eq!(n.values, vec!["sunny", "overcast", "rainy"]);
        }
        _ => panic!("expected nominal"),
    }
}

#[test]
fn parse_instance_values_wrong_arity() {
    let h = InstanceHeader::new("r".into(), vec![numeric("a"), numeric("b")], 0);
    let err = parse_instance_tokens(&h, "1").unwrap_err();
    assert_eq!(err.kind, ParseErrorKind::InvalidData);
}

#[test]
fn parse_instance_values_unknown_nominal() {
    let h = InstanceHeader::new("r".into(), vec![nominal("a", &["x", "y"])], 0);
    let err = parse_instance_tokens(&h, "z").unwrap_err();
    assert_eq!(err.kind, ParseErrorKind::InvalidData);
}

#[test]
fn parse_instance_tokens_classifies_cells() {
    let h = InstanceHeader::new(
        "r".into(),
        vec![nominal("a", &["x", "y"]), numeric("b"), nominal("c", &["p", "q"])],
        2,
    );
    let toks = parse_instance_tokens(&h, "y, 3.25 ,?").unwrap();
    assert!(matches!(toks[0], DataToken::NominalIndex(1)));
    match &toks[1] {
        DataToken::NumericText(t) => assert_eq!(t, "3.25"),
        _ => panic!("expected numeric text"),
    }
    assert!(matches!(toks[2], DataToken::Missing));
}

#[test]
fn split_csv_keeps_quoted_commas_together() {
    let parts = split_csv_preserving_quotes("'big, city',7,ok");
    assert_eq!(parts, vec!["'big, city'", "7", "ok"]);
}

#[test]
fn strip_surrounding_quotes_only_strips_matched_pairs() {
    assert_eq!(strip_surrounding_quotes("'abc'"), "abc");
    assert_eq!(strip_surrounding_quotes("\"abc\""), "abc");
    assert_eq!(strip_surrounding_quotes("'abc\""), "'abc\"");
    assert_eq!(strip_surrounding_quotes("abc"), "abc");
}

#[test]
fn header_round_trip_preserves_relation_and_attributes() {
    let h = InstanceHeader::new(
        "weather".into(),
        vec![
            nominal("outlook", &["sunny", "overcast", "rainy"]),
            numeric("temperature"),
            nominal("play", &["yes", "no"]),
        ],
        2,
    );
    let text = header_to_arff_lines(&h);
    assert_eq!(text[0], "@relation weather");
    assert_eq!(text[1], "@attribute outlook { sunny, overcast, rainy }");
    assert_eq!(text[2], "@attribute temperature numeric");
    assert_eq!(text[4], "@data");

    let (h2, data_start) = parse_header(&text, Some(2)).unwrap();
    assert_eq!(h2.relation_name(), "weather");
    assert_eq!(h2.number_of_attributes(), 3);
    assert_eq!(h2.class_index(), 2);
    assert_eq!(data_start, 5);
    match (&h.attributes[0], &h2.attributes[0]) {
        (Attribute::Nominal(a), Attribute::Nominal(b)) => {
            assert_eq!(a.name, b.name);
            assert_eq!(a.values, b.values);
        }
        _ => panic!("expected nominal attributes"),
    }
    match &h2.attributes[1] {
        Attribute::Numeric(n) => assert_eq!(n.name, "temperature"),
        _ => panic!("expected numeric attribute"),
    }

    // a second trip writes the same text
    let text2 = header_to_arff_lines(&h2);
    assert_eq!(text, text2);
}

#[test]
fn empty_text_ends_before_data() {
    let err = parse_header(&Vec::new(), None).unwrap_err();
    assert_eq!(err.kind, ParseErrorKind::UnexpectedEof);
}

#[test]
fn comments_and_blanks_carry_nothing() {
    assert!(is_comment_or_empty("   "));
    assert!(is_comment_or_empty("% a remark"));
    assert!(is_comment_or_empty("  % indented remark"));
    assert!(!is_comment_or_empty("@data"));
}
