//! The file converter: turns the entries of a translation document into
//! output lines of the form `key=value`.

use crate::document::{ConvertError, Document, JsonValue};
use crate::normalize::{ftl_parse, normalized_key};
use crate::rebind::{rebound, RebindTable};
use crate::text::{append_chars, chars_of, string_of, texts};
use crate::value::{effective_text, rewrite_value, substituted};
use vstd::prelude::*;

verus! {

/// Whether no entry before the entry at `i` has its key.
pub open spec fn is_first(entries: Seq<(String, JsonValue)>, i: int) -> bool {
    forall|j: int| 0 <= j < i ==> (#[trigger] entries[j]).0@ != entries[i].0@
}

/// The output line of an entry: its key, normalized and then rebound, an
/// `=`, and its text with the placeholder markers rewritten. There is none
/// where the value of the entry stands for no text.
pub open spec fn line_of(entry: (String, JsonValue), table: Map<Seq<char>, Seq<char>>) -> Option<
    Seq<char>,
> {
    match effective_text(entry.1) {
        Some(text) => Some(
            rebound(table, normalized_key(entry.0@)) + seq!['='] + substituted(text),
        ),
        None => None,
    }
}

/// The outcome of converting `entries` in order: the lines of the entries
/// that are the first with their key, or the key of the first such entry
/// whose value stands for no text.
pub open spec fn converted(
    entries: Seq<(String, JsonValue)>,
    table: Map<Seq<char>, Seq<char>>,
) -> Result<Seq<Seq<char>>, Seq<char>>
    decreases entries.len(),
{
    if entries.len() == 0 {
        Ok(Seq::empty())
    } else {
        match converted(entries.drop_last(), table) {
            Err(key) => Err(key),
            Ok(lines) => if !is_first(entries, entries.len() - 1) {
                Ok(lines)
            } else {
                match line_of(entries.last(), table) {
                    Some(line) => Ok(lines.push(line)),
                    None => Err(entries.last().0@),
                }
            },
        }
    }
}

/// Whether the entry at `j` has a line.
pub open spec fn has_line(
    entries: Seq<(String, JsonValue)>,
    j: int,
    table: Map<Seq<char>, Seq<char>>,
) -> bool {
    line_of(entries[j], table) is Some
}

/// Whether each of the first `n` entries that is the first with its key has
/// a line.
pub open spec fn all_have_lines(
    entries: Seq<(String, JsonValue)>,
    n: int,
    table: Map<Seq<char>, Seq<char>>,
) -> bool {
    forall|j: int| 0 <= j < n && is_first(entries, j) ==> has_line(entries, j, table)
}

/// Whether the entry at `i` is the earliest that is the first with its key
/// and has no line.
pub open spec fn fails_at(
    entries: Seq<(String, JsonValue)>,
    i: int,
    table: Map<Seq<char>, Seq<char>>,
) -> bool {
    &&& 0 <= i < entries.len()
    &&& is_first(entries, i)
    &&& !has_line(entries, i, table)
    &&& all_have_lines(entries, i, table)
}

/// Whether what a conversion returned is the outcome `expected`.
pub open spec fn is_outcome(
    returned: Result<Vec<String>, ConvertError>,
    expected: Result<Seq<Seq<char>>, Seq<char>>,
) -> bool {
    match expected {
        Ok(lines) => returned is Ok && texts(returned->Ok_0@) == lines,
        Err(key) => returned matches Err(ConvertError::InvalidValueShape { key: k }) && k@ == key,
    }
}

/// Tests whether an entry before the one at `i` has its key.
fn seen_before(entries: &Vec<(String, JsonValue)>, i: usize) -> (r: bool)
    requires
        i < entries.len(),
    ensures
        r == !is_first(entries@, i as int),
{
    let mut j: usize = 0;
    while j < i
        invariant
            j <= i < entries.len(),
            forall|k: int| 0 <= k < j ==> (#[trigger] entries@[k]).0@ != entries@[i as int].0@,
        decreases i - j,
    {
        if entries[j].0 == entries[i].0 {
            return true;
        }
        j += 1;
    }
    false
}

/// Converts a translation document into its output lines.
///
/// The entries are taken in the order of the document. An entry whose key
/// stood in an earlier entry is passed over. Every other entry gives one
/// line: its key, normalized and rebound by `table`, an `=`, and its value
/// rewritten. The first such entry whose value stands for no text ends the
/// conversion with `InvalidValueShape` and its key.
pub fn convert(document: &Document, table: &RebindTable) -> (r: Result<Vec<String>, ConvertError>)
    ensures
        is_outcome(r, converted(document.entries@, table@)),
        r is Ok <==> all_have_lines(document.entries@, document.entries@.len() as int, table@),
{
    let entries = &document.entries;
    let mut lines: Vec<String> = Vec::new();
    let mut i: usize = 0;
    assert(entries@.subrange(0, 0) == Seq::<(String, JsonValue)>::empty());
    assert(texts(lines@) == Seq::<Seq<char>>::empty());
    while i < entries.len()
        invariant
            i <= entries.len(),
            *entries == document.entries,
            converted(entries@.subrange(0, i as int), table@) == Ok::<Seq<Seq<char>>, Seq<char>>(
                texts(lines@),
            ),
        decreases entries.len() - i,
    {
        let ghost front = entries@.subrange(0, i + 1);
        proof {
            assert(front.drop_last() == entries@.subrange(0, i as int));
            assert(front.last() == entries@[i as int]);
            assert(front[i as int] == entries@[i as int]);
            if is_first(front, i as int) {
                assert forall|j: int| 0 <= j < i implies (#[trigger] entries@[j]).0@
                    != entries@[i as int].0@ by {
                    assert(front[j] == entries@[j]);
                }
            }
            if is_first(entries@, i as int) {
                assert forall|j: int| 0 <= j < i implies (#[trigger] front[j]).0@
                    != front[i as int].0@ by {
                    assert(front[j] == entries@[j]);
                }
            }
        }
        if !seen_before(entries, i) {
            let key = ftl_parse(entries[i].0.as_str());
            let mut line = chars_of(table.rebind(key.as_str()).as_str());
            match rewrite_value(&entries[i].1) {
                Ok(value_text) => {
                    line.push('=');
                    append_chars(&mut line, &chars_of(value_text.as_str()));
                    let ghost before = texts(lines@);
                    lines.push(string_of(&line));
                    assert(texts(lines@) == before.push(line@));
                    assert(line@ == line_of(entries@[i as int], table@)->Some_0);
                },
                Err(_) => {
                    assert(entries@.subrange(0, entries.len() as int) == entries@);
                    proof {
                        lemma_converted_failure_stays(entries@, i + 1, table@);
                        lemma_converted_outcome(entries@, table@);
                    }
                    return Err(ConvertError::InvalidValueShape { key: entries[i].0.clone() });
                },
            }
        }
        i += 1;
    }
    assert(entries@.subrange(0, entries.len() as int) == entries@);
    proof {
        lemma_converted_outcome(entries@, table@);
    }
    Ok(lines)
}

/// A conversion that has failed within the first `n` entries fails with the
/// same key on all of them.
pub proof fn lemma_converted_failure_stays(
    entries: Seq<(String, JsonValue)>,
    n: int,
    table: Map<Seq<char>, Seq<char>>,
)
    requires
        0 <= n <= entries.len(),
        converted(entries.subrange(0, n), table) is Err,
    ensures
        converted(entries, table) == converted(entries.subrange(0, n), table),
    decreases entries.len() - n,
{
    if n < entries.len() {
        let next = entries.subrange(0, n + 1);
        assert(next.drop_last() == entries.subrange(0, n));
        lemma_converted_failure_stays(entries, n + 1, table);
    } else {
        assert(entries.subrange(0, n) == entries);
    }
}

/// Whether an entry is the first with its key does not depend on the
/// entries behind it.
proof fn lemma_is_first_in_front(entries: Seq<(String, JsonValue)>, i: int)
    requires
        0 <= i < entries.len() - 1,
    ensures
        is_first(entries.drop_last(), i) == is_first(entries, i),
{
    let front = entries.drop_last();
    assert(front[i] == entries[i]);
    if is_first(front, i) {
        assert forall|j: int| 0 <= j < i implies (#[trigger] entries[j]).0@ != entries[i].0@ by {
            assert(front[j] == entries[j]);
        }
    }
    if is_first(entries, i) {
        assert forall|j: int| 0 <= j < i implies (#[trigger] front[j]).0@ != front[i].0@ by {
            assert(front[j] == entries[j]);
        }
    }
}

/// The places of the entries that are the first with their key, in the
/// order of the document.
pub open spec fn first_places(entries: Seq<(String, JsonValue)>) -> Seq<int>
    decreases entries.len(),
{
    if entries.len() == 0 {
        Seq::empty()
    } else if is_first(entries, entries.len() - 1) {
        first_places(entries.drop_last()).push(entries.len() - 1)
    } else {
        first_places(entries.drop_last())
    }
}

/// `first_places` lists, in rising order, exactly the places of the entries
/// that are the first with their key.
pub proof fn lemma_first_places(entries: Seq<(String, JsonValue)>)
    ensures
        forall|k: int|
            0 <= k < first_places(entries).len() ==> 0 <= #[trigger] first_places(entries)[k]
                < entries.len() && is_first(entries, first_places(entries)[k]),
        forall|k1: int, k2: int|
            0 <= k1 < k2 < first_places(entries).len() ==> #[trigger] first_places(entries)[k1]
                < #[trigger] first_places(entries)[k2],
        forall|i: int|
            0 <= i < entries.len() && is_first(entries, i) ==> first_places(entries).contains(i),
    decreases entries.len(),
{
    if entries.len() > 0 {
        let front = entries.drop_last();
        let places = first_places(entries);
        let before = first_places(front);
        let n = entries.len() - 1;
        lemma_first_places(front);
        assert forall|k: int| 0 <= k < places.len() implies 0 <= #[trigger] places[k]
            < entries.len() && is_first(entries, places[k]) by {
            if k < before.len() {
                assert(places[k] == before[k]);
                lemma_is_first_in_front(entries, before[k]);
            }
        }
        assert forall|i: int| 0 <= i < entries.len() && is_first(entries, i) implies places.contains(
            i,
        ) by {
            if i < n {
                lemma_is_first_in_front(entries, i);
                assert(before.contains(i));
                let k = choose|k: int| 0 <= k < before.len() && before[k] == i;
                assert(places[k] == i);
            } else {
                assert(places[places.len() - 1] == i);
            }
        }
    }
}

/// Order is preserved: where a conversion succeeds, its lines are the lines
/// of the entries that are the first with their key, one for each and in the
/// order in which these entries stand in the document.
pub proof fn lemma_lines_follow_entries(
    entries: Seq<(String, JsonValue)>,
    table: Map<Seq<char>, Seq<char>>,
)
    requires
        converted(entries, table) is Ok,
    ensures
        converted(entries, table)->Ok_0.len() == first_places(entries).len(),
        forall|k: int|
            0 <= k < first_places(entries).len() ==> 0 <= #[trigger] first_places(entries)[k]
                < entries.len() && line_of(entries[first_places(entries)[k]], table) == Some(
                converted(entries, table)->Ok_0[k],
            ),
        forall|k1: int, k2: int|
            0 <= k1 < k2 < first_places(entries).len() ==> #[trigger] first_places(entries)[k1]
                < #[trigger] first_places(entries)[k2],
    decreases entries.len(),
{
    lemma_first_places(entries);
    if entries.len() > 0 {
        let front = entries.drop_last();
        lemma_lines_follow_entries(front, table);
        let places = first_places(entries);
        let before = first_places(front);
        let lines = converted(entries, table)->Ok_0;
        assert forall|k: int| 0 <= k < places.len() implies line_of(
            entries[#[trigger] places[k]],
            table,
        ) == Some(lines[k]) by {
            if k < before.len() {
                assert(places[k] == before[k]);
                assert(front[before[k]] == entries[before[k]]);
            }
        }
    }
}

/// Keys are not repeated: every key of the document has exactly one entry
/// among those that give a line, and that entry is the first with the key.
pub proof fn lemma_one_line_per_key(entries: Seq<(String, JsonValue)>, i: int)
    requires
        0 <= i < entries.len(),
    ensures
        exists|k: int|
            0 <= k < first_places(entries).len() && first_places(entries)[k] <= i
                && entries[#[trigger] first_places(entries)[k]].0@ == entries[i].0@,
        forall|k1: int, k2: int|
            0 <= k1 < first_places(entries).len() && 0 <= k2 < first_places(entries).len()
                && entries[#[trigger] first_places(entries)[k1]].0@
                == entries[#[trigger] first_places(entries)[k2]].0@ ==> k1 == k2,
    decreases i,
{
    let places = first_places(entries);
    lemma_first_places(entries);
    if is_first(entries, i) {
        assert(places.contains(i));
        let k = choose|k: int| 0 <= k < places.len() && places[k] == i;
        assert(entries[places[k]].0@ == entries[i].0@);
    } else {
        let j = choose|j: int| 0 <= j < i && (#[trigger] entries[j]).0@ == entries[i].0@;
        lemma_one_line_per_key(entries, j);
        let k = choose|k: int|
            0 <= k < places.len() && places[k] <= j && entries[#[trigger] places[k]].0@
                == entries[j].0@;
        assert(places[k] <= i && entries[places[k]].0@ == entries[i].0@);
    }
    assert forall|k1: int, k2: int|
        0 <= k1 < places.len() && 0 <= k2 < places.len() && entries[#[trigger] places[k1]].0@
            == entries[#[trigger] places[k2]].0@ implies k1 == k2 by {
        if k1 < k2 {
            assert(places[k1] < places[k2]);
            assert(is_first(entries, places[k2]));
            assert(entries[places[k1]].0@ != entries[places[k2]].0@);
        }
        if k2 < k1 {
            assert(places[k2] < places[k1]);
            assert(is_first(entries, places[k1]));
            assert(entries[places[k2]].0@ != entries[places[k1]].0@);
        }
    }
}

/// Whether the first `n` entries have lines does not depend on the entries
/// behind them.
proof fn lemma_all_have_lines_in_front(
    entries: Seq<(String, JsonValue)>,
    n: int,
    table: Map<Seq<char>, Seq<char>>,
)
    requires
        0 <= n < entries.len(),
    ensures
        all_have_lines(entries.drop_last(), n, table) == all_have_lines(entries, n, table),
{
    let front = entries.drop_last();
    if all_have_lines(front, n, table) {
        assert forall|j: int| 0 <= j < n && is_first(entries, j) implies has_line(
            entries,
            j,
            table,
        ) by {
            lemma_is_first_in_front(entries, j);
            assert(front[j] == entries[j]);
            assert(has_line(front, j, table));
        }
    }
    if all_have_lines(entries, n, table) {
        assert forall|j: int| 0 <= j < n && is_first(front, j) implies has_line(front, j, table) by {
            lemma_is_first_in_front(entries, j);
            assert(front[j] == entries[j]);
            assert(has_line(entries, j, table));
        }
    }
}

/// When a conversion succeeds and when it fails: it succeeds where every
/// entry that is the first with its key has a line, and fails with the key
/// of the earliest such entry that has none.
pub proof fn lemma_converted_outcome(
    entries: Seq<(String, JsonValue)>,
    table: Map<Seq<char>, Seq<char>>,
)
    ensures
        match converted(entries, table) {
            Ok(_) => all_have_lines(entries, entries.len() as int, table),
            Err(key) => exists|i: int| #[trigger]
                fails_at(entries, i, table) && entries[i].0@ == key,
        },
    decreases entries.len(),
{
    if entries.len() > 0 {
        let front = entries.drop_last();
        let n = entries.len() - 1;
        lemma_converted_outcome(front, table);
        match converted(front, table) {
            Ok(_) => {
                lemma_all_have_lines_in_front(entries, n, table);
                if converted(entries, table) is Err {
                    assert(!has_line(entries, n, table));
                    assert(fails_at(entries, n, table));
                } else {
                    assert(is_first(entries, n) ==> has_line(entries, n, table));
                }
            },
            Err(key) => {
                let i = choose|i: int| #[trigger] fails_at(front, i, table) && front[i].0@ == key;
                lemma_is_first_in_front(entries, i);
                lemma_all_have_lines_in_front(entries, i, table);
                assert(front[i] == entries[i]);
                assert(fails_at(entries, i, table));
            },
        }
    }
}

/// The lines joined into one text, with a line feed between each two.
pub open spec fn joined(lines: Seq<Seq<char>>) -> Seq<char>
    decreases lines.len(),
{
    if lines.len() == 0 {
        Seq::empty()
    } else if lines.len() == 1 {
        lines[0]
    } else {
        joined(lines.drop_last()) + seq!['\n'] + lines.last()
    }
}

/// Joins the lines into one text, with a line feed between each two and
/// none at the end.
pub fn join_lines(lines: &Vec<String>) -> (r: String)
    ensures
        r@ == joined(texts(lines@)),
{
    let mut out: Vec<char> = Vec::new();
    let mut i: usize = 0;
    assert(texts(lines@).subrange(0, 0) == Seq::<Seq<char>>::empty());
    while i < lines.len()
        invariant
            i <= lines.len(),
            out@ == joined(texts(lines@).subrange(0, i as int)),
        decreases lines.len() - i,
    {
        let ghost front = texts(lines@).subrange(0, i + 1);
        assert(front.drop_last() == texts(lines@).subrange(0, i as int));
        assert(front.last() == lines@[i as int]@);
        if i > 0 {
            out.push('\n');
        }
        append_chars(&mut out, &chars_of(lines[i].as_str()));
        i += 1;
    }
    assert(texts(lines@).subrange(0, lines.len() as int) == texts(lines@));
    string_of(&out)
}

} // verus!
