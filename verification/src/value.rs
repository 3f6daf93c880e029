//! The value rewriter: finds the text of a document value and rewrites its
//! placeholder markers.

use crate::document::{InvalidValueShape, JsonValue};
use crate::text::{
    chars_of, lemma_occurrence, lemma_replaced_without_match, occurs_at, occurs_in, replace_all,
    replaced, string_of,
};
use vstd::prelude::*;

verus! {

/// The marker of a variable in a source value: `` `x` ``.
pub open spec fn variable_marker() -> Seq<char> {
    seq!['`', 'x', '`']
}

/// The marker of a count in a source value: `{{count}}`.
pub open spec fn count_marker() -> Seq<char> {
    seq!['{', '{', 'c', 'o', 'u', 'n', 't', '}', '}']
}

/// The reference to the variable `x` in an output value: `{ $x }`.
pub open spec fn variable_reference() -> Seq<char> {
    seq!['{', ' ', '$', 'x', ' ', '}']
}

/// `text` with its placeholder markers rewritten: first every variable
/// marker, then every count marker, becomes a reference to the variable `x`.
/// Nothing else changes, so a space before a marker stays where it is.
pub open spec fn substituted(text: Seq<char>) -> Seq<char> {
    replaced(
        replaced(text, variable_marker(), variable_reference()),
        count_marker(),
        variable_reference(),
    )
}

/// The value of the first field whose key is the empty string.
pub open spec fn empty_key_field(fields: Seq<(String, JsonValue)>) -> Option<JsonValue>
    decreases fields.len(),
{
    if fields.len() == 0 {
        None
    } else if fields[0].0@.len() == 0 {
        Some(fields[0].1)
    } else {
        empty_key_field(fields.drop_first())
    }
}

/// The text that a document value stands for: a string stands for itself, an
/// object for the string under its empty key, and nothing else for any text.
pub open spec fn effective_text(value: JsonValue) -> Option<Seq<char>> {
    match value {
        JsonValue::Text(s) => Some(s@),
        JsonValue::Object(fields) => match empty_key_field(fields@) {
            Some(JsonValue::Text(s)) => Some(s@),
            _ => None,
        },
        _ => None,
    }
}

/// Rewrites the placeholder markers of `text`.
pub fn substitute(text: &str) -> (r: String)
    ensures
        r@ == substituted(text@),
{
    let marker = vec!['`', 'x', '`'];
    let count = vec!['{', '{', 'c', 'o', 'u', 'n', 't', '}', '}'];
    let reference = vec!['{', ' ', '$', 'x', ' ', '}'];
    assert(marker@ == variable_marker());
    assert(count@ == count_marker());
    assert(reference@ == variable_reference());
    let source = chars_of(text);
    let first = replace_all(&source, &marker, &reference);
    let second = replace_all(&first, &count, &reference);
    string_of(&second)
}

/// Finds the first field whose key is the empty string.
fn first_empty_key(fields: &Vec<(String, JsonValue)>) -> (r: Option<usize>)
    ensures
        match r {
            Some(i) => i < fields.len() && empty_key_field(fields@) == Some(fields@[i as int].1),
            None => empty_key_field(fields@) is None,
        },
{
    let mut i: usize = 0;
    assert(fields@.subrange(0, fields.len() as int) == fields@);
    while i < fields.len()
        invariant
            i <= fields.len(),
            empty_key_field(fields@) == empty_key_field(
                fields@.subrange(i as int, fields.len() as int),
            ),
        decreases fields.len() - i,
    {
        assert(fields@.subrange(i as int, fields.len() as int).drop_first() == fields@.subrange(
            i + 1,
            fields.len() as int,
        ));
        assert(fields@.subrange(i as int, fields.len() as int)[0] == fields@[i as int]);
        if fields[i].0.as_str().is_empty() {
            return Some(i);
        }
        i += 1;
    }
    None
}

/// The output value of a document value: its text with the placeholder
/// markers rewritten. Fails where the value stands for no text.
pub fn rewrite_value(value_node: &JsonValue) -> (r: Result<String, InvalidValueShape>)
    ensures
        match effective_text(*value_node) {
            Some(text) => r is Ok && r->Ok_0@ == substituted(text),
            None => r is Err,
        },
{
    match value_node {
        JsonValue::Text(s) => Ok(substitute(s.as_str())),
        JsonValue::Object(fields) => match first_empty_key(fields) {
            Some(i) => match &fields[i].1 {
                JsonValue::Text(s) => Ok(substitute(s.as_str())),
                _ => Err(InvalidValueShape),
            },
            None => Err(InvalidValueShape),
        },
        _ => Err(InvalidValueShape),
    }
}

/// The first character of what is left of a text, after its variable
/// markers are rewritten, is the first of the reference where the text
/// starts with a marker, and else the first of the text.
proof fn lemma_rewritten_first(s: Seq<char>)
    requires
        s.len() > 0,
    ensures
        replaced(s, variable_marker(), variable_reference()).len() > 0,
        replaced(s, variable_marker(), variable_reference())[0] == (if occurs_at(
            s,
            variable_marker(),
            0,
        ) {
            '{'
        } else {
            s[0]
        }),
{
}

/// Once the variable markers of a text are rewritten, none is left in it.
pub proof fn lemma_no_marker_left(s: Seq<char>)
    ensures
        !occurs_in(replaced(s, variable_marker(), variable_reference()), variable_marker()),
    decreases s.len(),
{
    let m = variable_marker();
    let w = variable_reference();
    let r = replaced(s, m, w);
    assert forall|p: int| !occurs_at(r, m, p) by {
        if occurs_at(r, m, p) {
            lemma_occurrence(r, m, p, 0);
            lemma_occurrence(r, m, p, 1);
            lemma_occurrence(r, m, p, 2);
            if occurs_at(s, m, 0) {
                let rest = replaced(s.subrange(3, s.len() as int), m, w);
                lemma_no_marker_left(s.subrange(3, s.len() as int));
                assert(r == w + rest);
                if p >= 6 {
                    assert(rest.subrange(p - 6, p - 6 + 3) == r.subrange(p, p + 3));
                    assert(occurs_at(rest, m, p - 6));
                } else {
                    assert(r[p] == w[p]);
                }
            } else {
                let t = s.drop_first();
                let rest = replaced(t, m, w);
                lemma_no_marker_left(t);
                assert(r == seq![s[0]] + rest);
                if p >= 1 {
                    assert(rest.subrange(p - 1, p - 1 + 3) == r.subrange(p, p + 3));
                    assert(occurs_at(rest, m, p - 1));
                } else {
                    assert(r[1] == rest[0] && r[2] == rest[1]);
                    lemma_rewritten_first(t);
                    let u = t.drop_first();
                    assert(rest == seq![t[0]] + replaced(u, m, w));
                    assert(rest[1] == replaced(u, m, w)[0]);
                    lemma_rewritten_first(u);
                    assert(s.subrange(0, 3) == m);
                }
            }
        }
    }
}

/// A variable marker with a space before it needs no rewriting of its own:
/// once the variable markers of a text are rewritten, rewriting those with a
/// space before them, the space kept, changes nothing.
pub proof fn lemma_spaced_marker_is_covered(text: Seq<char>)
    ensures
        replaced(
            replaced(text, variable_marker(), variable_reference()),
            seq![' '] + variable_marker(),
            seq![' '] + variable_reference(),
        ) == replaced(text, variable_marker(), variable_reference()),
{
    let r = replaced(text, variable_marker(), variable_reference());
    let spaced = seq![' '] + variable_marker();
    lemma_no_marker_left(text);
    assert forall|i: int| !occurs_at(r, spaced, i) by {
        if occurs_at(r, spaced, i) {
            assert(r.subrange(i + 1, i + 1 + 3) == r.subrange(i, i + 4).subrange(1, 4));
            assert(spaced.subrange(1, 4) == variable_marker());
            assert(occurs_at(r, variable_marker(), i + 1));
        }
    }
    lemma_replaced_without_match(r, spaced, seq![' '] + variable_reference());
}

} // verus!
