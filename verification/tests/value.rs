use json_ftl::document::{InvalidValueShape, JsonValue};
use json_ftl::value::{rewrite_value, substitute};

fn text(s: &str) -> JsonValue {
    JsonValue::Text(s.to_string())
}

fn object(fields: Vec<(&str, JsonValue)>) -> JsonValue {
    JsonValue::Object(fields.into_iter().map(|(k, v)| (k.to_string(), v)).collect())
}

#[test]
fn variable_marker_is_rewritten() {
    assert_eq!(rewrite_value(&text("Hello `x`")), Ok("Hello { $x }".to_string()));
    assert_eq!(substitute("`x`"), "{ $x }");
    assert_eq!(substitute("`x``x`"), "{ $x }{ $x }");
}

#[test]
fn count_marker_is_rewritten() {
    assert_eq!(rewrite_value(&text("{{count}} items")), Ok("{ $x } items".to_string()));
}

#[test]
fn the_space_before_a_marker_stays() {
    assert_eq!(substitute("Hi `x`!"), "Hi { $x }!");
    assert_eq!(substitute("Hi  `x`"), "Hi  { $x }");
}

#[test]
fn rewriting_agrees_with_the_chain_that_rewrites_the_spaced_marker_too() {
    let texts = ["Hi `x`!", " `x`", "`x` `x`  `x`", "``x``", "` `x`x`", "{{count}} `x` {{count}}", "a `x", ""];
    for text in texts {
        let chained = text
            .replace("`x`", "{ $x }")
            .replace(" `x`", " { $x }")
            .replace("{{count}}", "{ $x }");
        assert_eq!(substitute(text), chained, "{:?}", text);
    }
}

#[test]
fn both_markers_are_rewritten() {
    assert_eq!(substitute("`x` has {{count}} videos"), "{ $x } has { $x } videos");
}

#[test]
fn a_rewritten_marker_is_not_matched_again() {
    assert_eq!(substitute("{{count}`x`}"), "{{count}{ $x }}");
    assert_eq!(substitute("{`x`count}}"), "{{ $x }count}}");
}

#[test]
fn text_without_markers_stays() {
    assert_eq!(substitute(""), "");
    assert_eq!(substitute("a=b\nc"), "a=b\nc");
    assert_eq!(substitute("`y` {count} {{ count }}"), "`y` {count} {{ count }}");
}

#[test]
fn object_stands_for_the_text_under_its_empty_key() {
    let value = object(vec![("", text("{{count}} days ago"))]);
    assert_eq!(rewrite_value(&value), Ok("{ $x } days ago".to_string()));
    let more = object(vec![("one", text("a")), ("", text("`x` b")), ("two", text("c"))]);
    assert_eq!(rewrite_value(&more), Ok("{ $x } b".to_string()));
}

#[test]
fn object_without_empty_key_has_no_valid_shape() {
    assert_eq!(rewrite_value(&object(vec![])), Err(InvalidValueShape));
    assert_eq!(rewrite_value(&object(vec![("one", text("a"))])), Err(InvalidValueShape));
}

#[test]
fn object_with_something_else_under_its_empty_key_has_no_valid_shape() {
    assert_eq!(rewrite_value(&object(vec![("", JsonValue::Number)])), Err(InvalidValueShape));
    assert_eq!(
        rewrite_value(&object(vec![("", object(vec![("", text("a"))]))])),
        Err(InvalidValueShape)
    );
}

#[test]
fn other_values_have_no_valid_shape() {
    assert_eq!(rewrite_value(&JsonValue::Null), Err(InvalidValueShape));
    assert_eq!(rewrite_value(&JsonValue::Bool(true)), Err(InvalidValueShape));
    assert_eq!(rewrite_value(&JsonValue::Number), Err(InvalidValueShape));
    assert_eq!(rewrite_value(&JsonValue::Array(vec![text("a")])), Err(InvalidValueShape));
}
