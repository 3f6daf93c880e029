use json_ftl::convert::{convert, join_lines};
use json_ftl::document::{ConvertError, Document, JsonValue};
use json_ftl::json::{convert_text, document_of, parse_document, parse_json};
use json_ftl::rebind::{get_rebindings, RebindTable};

fn text(s: &str) -> JsonValue {
    JsonValue::Text(s.to_string())
}

fn document(entries: Vec<(&str, JsonValue)>) -> Document {
    Document { entries: entries.into_iter().map(|(k, v)| (k.to_string(), v)).collect() }
}

fn invalid(key: &str) -> ConvertError {
    ConvertError::InvalidValueShape { key: key.to_string() }
}

#[test]
fn entries_become_lines() {
    let doc = document(vec![
        ("Hello World", text("Hi `x`!")),
        ("x_ago", JsonValue::Object(vec![("".to_string(), text("{{count}} days ago"))])),
    ]);
    assert_eq!(
        convert(&doc, &get_rebindings()),
        Ok(vec!["hello_world=Hi { $x }!".to_string(), "upload_date={ $x } days ago".to_string()])
    );
}

#[test]
fn text_of_a_document_becomes_lines() {
    let input = "{\"Hello World\": \"Hi `x`!\", \"x_ago\": {\"\": \"{{count}} days ago\"}}";
    assert_eq!(
        convert_text(input, &get_rebindings()),
        Ok(vec!["hello_world=Hi { $x }!".to_string(), "upload_date={ $x } days ago".to_string()])
    );
}

#[test]
fn empty_document_gives_no_lines() {
    assert_eq!(convert(&document(vec![]), &get_rebindings()), Ok(vec![]));
    assert_eq!(convert_text("{}", &get_rebindings()), Ok(vec![]));
    assert_eq!(convert_text("  {  }\n", &get_rebindings()), Ok(vec![]));
}

#[test]
fn number_value_fails_with_its_key() {
    assert_eq!(convert_text("{\"k\": 5}", &get_rebindings()), Err(invalid("k")));
    assert_eq!(convert(&document(vec![("k", JsonValue::Number)]), &get_rebindings()), Err(invalid("k")));
}

#[test]
fn the_first_value_without_valid_shape_is_reported_with_its_key_as_written() {
    let input = "{\"Fine\": \"a\", \"Bad One\": null, \"Worse\": [1], \"Last\": \"b\"}";
    assert_eq!(convert_text(input, &get_rebindings()), Err(invalid("Bad One")));
    assert_eq!(convert_text("{\"a\": {\"b\": \"c\"}}", &get_rebindings()), Err(invalid("a")));
    assert_eq!(convert_text("{\"a\": {\"\": 1}}", &get_rebindings()), Err(invalid("a")));
    assert_eq!(convert_text("{\"a\": true}", &get_rebindings()), Err(invalid("a")));
}

#[test]
fn text_that_is_no_json_is_malformed() {
    let table = get_rebindings();
    assert_eq!(convert_text("", &table), Err(ConvertError::MalformedInput));
    assert_eq!(convert_text("{", &table), Err(ConvertError::MalformedInput));
    assert_eq!(convert_text("{\"a\": \"b\",}", &table), Err(ConvertError::MalformedInput));
    assert_eq!(convert_text("{\"a\": \"b\"} x", &table), Err(ConvertError::MalformedInput));
    assert_eq!(convert_text("{a: \"b\"}", &table), Err(ConvertError::MalformedInput));
}

#[test]
fn json_that_is_no_object_is_malformed() {
    let table = get_rebindings();
    assert_eq!(convert_text("[]", &table), Err(ConvertError::MalformedInput));
    assert_eq!(convert_text("\"a\"", &table), Err(ConvertError::MalformedInput));
    assert_eq!(convert_text("5", &table), Err(ConvertError::MalformedInput));
    assert_eq!(convert_text("null", &table), Err(ConvertError::MalformedInput));
    assert_eq!(document_of(JsonValue::Array(vec![])), Err(ConvertError::MalformedInput));
    assert_eq!(parse_document("true"), Err(ConvertError::MalformedInput));
}

#[test]
fn repeated_key_gives_the_line_of_its_first_entry_only() {
    let doc = document(vec![("a", text("1")), ("b", text("2")), ("a", text("3")), ("a", text("4"))]);
    assert_eq!(convert(&doc, &RebindTable::new()), Ok(vec!["a=1".to_string(), "b=2".to_string()]));
}

#[test]
fn repeated_key_is_passed_over_whatever_its_value() {
    let doc = document(vec![("a", text("1")), ("a", JsonValue::Null)]);
    assert_eq!(convert(&doc, &RebindTable::new()), Ok(vec!["a=1".to_string()]));
    let bad_first = document(vec![("a", JsonValue::Null), ("a", text("1"))]);
    assert_eq!(convert(&bad_first, &RebindTable::new()), Err(invalid("a")));
}

#[test]
fn repeated_key_in_a_text_gives_one_line() {
    let lines = convert_text("{\"a\": \"1\", \"b\": \"2\", \"a\": \"3\"}", &RebindTable::new()).unwrap();
    assert_eq!(lines.len(), 2);
    assert!(lines[0].starts_with("a="));
    assert_eq!(lines[1], "b=2");
}

#[test]
fn keys_that_differ_give_a_line_each_though_they_normalize_alike() {
    let doc = document(vec![("a b", text("1")), ("a_b", text("2")), ("A-B", text("3"))]);
    assert_eq!(
        convert(&doc, &RebindTable::new()),
        Ok(vec!["a_b=1".to_string(), "a_b=2".to_string(), "a_b=3".to_string()])
    );
}

#[test]
fn lines_keep_the_order_of_the_document() {
    let input = "{\"zeta\": \"1\", \"alpha\": \"2\", \"Mid\": \"3\", \"beta\": \"4\"}";
    assert_eq!(
        convert_text(input, &RebindTable::new()),
        Ok(vec!["zeta=1".to_string(), "alpha=2".to_string(), "mid=3".to_string(), "beta=4".to_string()])
    );
}

#[test]
fn key_is_normalized_before_it_is_rebound() {
    let mut table = RebindTable::new();
    table.insert("hello_world", "greeting");
    table.insert("Hello World", "never");
    let doc = document(vec![("Hello World", text("hi")), ("greeting", text("again"))]);
    assert_eq!(convert(&doc, &table), Ok(vec!["greeting=hi".to_string(), "greeting=again".to_string()]));
}

#[test]
fn value_is_written_as_it_is() {
    let doc = document(vec![("k", text("a=b\nc = d")), ("", text("")), ("()", text("x"))]);
    assert_eq!(
        convert(&doc, &RebindTable::new()),
        Ok(vec!["k=a=b\nc = d".to_string(), "=".to_string(), "=x".to_string()])
    );
}

#[test]
fn escapes_of_the_text_are_read() {
    let input = "{\"Say \\\"hi\\\"\": \"tab\\there \\u00e5\"}";
    assert_eq!(convert_text(input, &RebindTable::new()), Ok(vec!["say_\"hi\"=tab\there \u{e5}".to_string()]));
}

#[test]
fn every_kind_of_value_is_carried_over() {
    let parsed = parse_json("[null, true, false, 1.5, -3, \"s\", [], {\"b\": [1], \"a\": {\"\": \"t\"}}]");
    let expected = JsonValue::Array(vec![
        JsonValue::Null,
        JsonValue::Bool(true),
        JsonValue::Bool(false),
        JsonValue::Number,
        JsonValue::Number,
        text("s"),
        JsonValue::Array(vec![]),
        JsonValue::Object(vec![
            ("b".to_string(), JsonValue::Array(vec![JsonValue::Number])),
            ("a".to_string(), JsonValue::Object(vec![("".to_string(), text("t"))])),
        ]),
    ]);
    assert_eq!(parsed, Ok(expected));
    assert_eq!(parse_json("nul"), Err(ConvertError::MalformedInput));
}

#[test]
fn document_holds_the_fields_of_the_object() {
    assert_eq!(
        parse_document("{\"b\": \"1\", \"a\": 2}"),
        Ok(document(vec![("b", text("1")), ("a", JsonValue::Number)]))
    );
}

#[test]
fn lines_are_joined_by_line_feeds() {
    assert_eq!(join_lines(&vec![]), "");
    assert_eq!(join_lines(&vec!["a=1".to_string()]), "a=1");
    assert_eq!(join_lines(&vec!["a=1".to_string(), "b=2".to_string(), "c=3".to_string()]), "a=1\nb=2\nc=3");
    assert_eq!(join_lines(&vec!["".to_string(), "".to_string()]), "\n");
}
