//! The key normalizer: turns a raw document key into an identifier.
//!
//! A key first goes through a fixed chain of global substitutions, then
//! through a pass that rewrites it character by character.

use crate::text::{
    all_chars, chars_of, is_white_space, lemma_no_match_without_char, lemma_replaced_all,
    lemma_replaced_without_match, lemma_trimmed_all, lemma_trimmed_without_white_space, occurs_in,
    replace_all, replaced, string_of, trim, trimmed,
};
use vstd::prelude::*;

verus! {

/// The first character of the Unicode lowercase mapping of `c`, which is `c`
/// itself where `c` has no such mapping.
pub uninterp spec fn unicode_lowercase(c: char) -> char;

/// `char::to_lowercase` of the standard library yields the lowercase mapping
/// of a character as one or more characters, whatever stands around it; this
/// hands back the first of them. Nothing of this is proved. The contract
/// claims that the result depends on the character alone, and gives it the
/// name `unicode_lowercase`.
#[verifier::external_body]
fn unicode_lower(c: char) -> (r: char)
    ensures
        r == unicode_lowercase(c),
{
    c.to_lowercase().next().unwrap_or(c)
}

/// Whether `m` is its own lowercase form: an ASCII character other than the
/// letters `A` to `Z`, or a character outside ASCII whose Unicode lowercase
/// mapping starts with itself.
pub open spec fn is_lowercase_fixed(m: char) -> bool {
    if m <= '\u{7f}' {
        !('A' <= m <= 'Z')
    } else {
        unicode_lowercase(m) == m
    }
}

/// Whether the normalizer takes `m` for the lowercase form of a character
/// outside ASCII: it is not dropped and is its own lowercase form.
pub open spec fn is_accepted_lowercase(m: char) -> bool {
    !is_dropped(m) && is_lowercase_fixed(m)
}

/// The lowercase form of a character. The letters `A` to `Z` go to `a` to
/// `z`, and every other ASCII character stays. A character outside ASCII
/// goes to the first character of its Unicode lowercase mapping where the
/// normalizer takes that character, and stays where it does not.
pub open spec fn lowercase_form(c: char) -> char {
    if 'A' <= c <= 'Z' {
        ((c as u8) + 32) as char
    } else if c <= '\u{7f}' {
        c
    } else if is_accepted_lowercase(unicode_lowercase(c)) {
        unicode_lowercase(c)
    } else {
        c
    }
}

/// The characters that the character pass drops.
pub open spec fn is_dropped(c: char) -> bool {
    ||| c == '('
    ||| c == ')'
    ||| c == '/'
    ||| c == '\\'
    ||| c == '.'
    ||| c == ','
    ||| c == '&'
    ||| c == '!'
    ||| c == '$'
    ||| c == '{'
    ||| c == '}'
    ||| c == '|'
    ||| c == '\''
    ||| c == '\u{2764}'
}

/// What stands for a question mark in a normalized key.
pub open spec fn question_token() -> Seq<char> {
    seq!['_', 'q', 'u', 'e', 's', 't', 'i', 'o', 'n']
}

/// What the character pass emits for one character.
pub open spec fn emitted(c: char) -> Seq<char> {
    if is_dropped(c) {
        Seq::empty()
    } else if c == '?' {
        question_token()
    } else if c == '-' || c == ' ' {
        seq!['_']
    } else {
        seq![lowercase_form(c)]
    }
}

/// The character pass: what is emitted for each character of `s`, in order.
pub open spec fn transduced(s: Seq<char>) -> Seq<char> {
    s.map_values(|c: char| emitted(c)).flatten()
}

/// The chain of global substitutions that a key goes through before the
/// character pass, each applied to the result of the one before:
/// two spaces become one; white space at both ends goes; the marker `` `x` ``
/// becomes `x`, and `_x` where a space stands before it; `":` goes;
/// ` - ` becomes a space; `/` becomes a space; `-` becomes `_`.
pub open spec fn prepared(key: Seq<char>) -> Seq<char> {
    let s1 = replaced(key, seq![' ', ' '], seq![' ']);
    let s2 = trimmed(s1);
    let s3 = replaced(s2, seq![' ', '`', 'x', '`'], seq!['_', 'x']);
    let s4 = replaced(s3, seq!['`', 'x', '`'], seq!['x']);
    let s5 = replaced(s4, seq!['"', ':'], Seq::empty());
    let s6 = replaced(s5, seq![' ', '-', ' '], seq![' ']);
    let s7 = replaced(s6, seq!['/'], seq![' ']);
    replaced(s7, seq!['-'], seq!['_'])
}

/// The normalized form of a raw key.
pub open spec fn normalized_key(key: Seq<char>) -> Seq<char> {
    transduced(prepared(key))
}

/// Appending one character to the input of the character pass appends what
/// is emitted for it to the output.
pub proof fn lemma_transduced_push(s: Seq<char>, c: char)
    ensures
        transduced(s.push(c)) == transduced(s) + emitted(c),
{
    let f = |c: char| emitted(c);
    assert(s.push(c).map_values(f) =~= s.map_values(f).push(emitted(c)));
    s.map_values(f).lemma_flatten_push(emitted(c));
}

/// Tests whether the character pass drops `c`.
pub fn dropped(c: char) -> (r: bool)
    ensures
        r == is_dropped(c),
{
    c == '(' || c == ')' || c == '/' || c == '\\' || c == '.' || c == ',' || c == '&' || c == '!'
        || c == '$' || c == '{' || c == '}' || c == '|' || c == '\'' || c == '\u{2764}'
}

/// Tests whether the normalizer takes `m` for the lowercase form of a
/// character outside ASCII.
pub fn accepted_lowercase(m: char) -> (r: bool)
    ensures
        r == is_accepted_lowercase(m),
{
    if dropped(m) {
        false
    } else if m <= '\u{7f}' {
        !('A' <= m && m <= 'Z')
    } else {
        unicode_lower(m) == m
    }
}

/// The lowercase form of `c`.
///
/// Outside ASCII the Unicode lowercase mapping is asked, and what it gives
/// is tested before it is taken: a result that is dropped by the character
/// pass, or that a second lowercasing would change, is set aside, and the
/// character is kept as it is. So the result is never dropped unless `c`
/// is, never a letter from `A` to `Z`, and always its own lowercase form.
pub fn lowercase(c: char) -> (r: char)
    ensures
        r == lowercase_form(c),
        !('A' <= r <= 'Z'),
        lowercase_form(r) == r,
        !is_dropped(c) ==> !is_dropped(r),
{
    if 'A' <= c && c <= 'Z' {
        let b: u8 = c as u8;
        (b + 32) as char
    } else if c <= '\u{7f}' {
        c
    } else {
        let mapped = unicode_lower(c);
        if accepted_lowercase(mapped) {
            mapped
        } else {
            c
        }
    }
}

/// Runs the character pass over `s`.
pub fn transduce(s: &Vec<char>) -> (r: Vec<char>)
    ensures
        r@ == transduced(s@),
{
    let mut out: Vec<char> = Vec::new();
    let mut i: usize = 0;
    assert(transduced(s@.subrange(0, 0)) == Seq::<char>::empty());
    while i < s.len()
        invariant
            i <= s.len(),
            out@ == transduced(s@.subrange(0, i as int)),
        decreases s.len() - i,
    {
        let c = s[i];
        proof {
            lemma_transduced_push(s@.subrange(0, i as int), c);
            assert(s@.subrange(0, i + 1) == s@.subrange(0, i as int).push(c));
        }
        if dropped(c) {
        } else if c == '?' {
            out.push('_');
            out.push('q');
            out.push('u');
            out.push('e');
            out.push('s');
            out.push('t');
            out.push('i');
            out.push('o');
            out.push('n');
        } else if c == '-' || c == ' ' {
            out.push('_');
        } else {
            out.push(lowercase(c));
        }
        i += 1;
    }
    assert(s@.subrange(0, s.len() as int) == s@);
    out
}

/// Runs the chain of global substitutions over a key.
pub fn prepare(key: &Vec<char>) -> (r: Vec<char>)
    ensures
        r@ == prepared(key@),
{
    let two_spaces = vec![' ', ' '];
    let space = vec![' '];
    let spaced_marker = vec![' ', '`', 'x', '`'];
    let marker = vec!['`', 'x', '`'];
    let quote_colon = vec!['"', ':'];
    let spaced_hyphen = vec![' ', '-', ' '];
    let slash = vec!['/'];
    let hyphen = vec!['-'];
    let underscore = vec!['_'];
    let underscore_x = vec!['_', 'x'];
    let x = vec!['x'];
    let nothing: Vec<char> = Vec::new();
    assert(two_spaces@ == seq![' ', ' ']);
    assert(space@ == seq![' ']);
    assert(spaced_marker@ == seq![' ', '`', 'x', '`']);
    assert(marker@ == seq!['`', 'x', '`']);
    assert(quote_colon@ == seq!['"', ':']);
    assert(spaced_hyphen@ == seq![' ', '-', ' ']);
    assert(slash@ == seq!['/']);
    assert(hyphen@ == seq!['-']);
    assert(underscore@ == seq!['_']);
    assert(underscore_x@ == seq!['_', 'x']);
    assert(x@ == seq!['x']);
    let s1 = replace_all(key, &two_spaces, &space);
    let s2 = trim(&s1);
    let s3 = replace_all(&s2, &spaced_marker, &underscore_x);
    let s4 = replace_all(&s3, &marker, &x);
    let s5 = replace_all(&s4, &quote_colon, &nothing);
    let s6 = replace_all(&s5, &spaced_hyphen, &space);
    let s7 = replace_all(&s6, &slash, &space);
    replace_all(&s7, &hyphen, &underscore)
}

/// Normalizes a raw document key.
///
/// The result is lower case, has an underscore for every space and hyphen
/// that is left after the substitutions, `_question` for every question
/// mark, and none of the dropped punctuation. An empty key, or one made of
/// dropped characters alone, gives the empty string.
pub fn ftl_parse(input: &str) -> (r: String)
    ensures
        r@ == normalized_key(input@),
{
    let raw = chars_of(input);
    let ready = prepare(&raw);
    let out = transduce(&ready);
    string_of(&out)
}

/// What holds of everything that the character pass emits for each
/// character of `s` holds of every character that it emits for `s`.
pub proof fn lemma_transduced_all(s: Seq<char>, q: spec_fn(char) -> bool)
    requires
        forall|i: int| 0 <= i < s.len() ==> all_chars(emitted(#[trigger] s[i]), q),
    ensures
        all_chars(transduced(s), q),
    decreases s.len(),
{
    if s.len() > 0 {
        let front = s.drop_last();
        assert forall|i: int| 0 <= i < front.len() implies all_chars(
            emitted(#[trigger] front[i]),
            q,
        ) by {
            assert(front[i] == s[i]);
        }
        lemma_transduced_all(front, q);
        lemma_transduced_push(front, s.last());
        assert(front.push(s.last()) == s);
        assert(all_chars(emitted(s[s.len() - 1]), q));
    } else {
        assert(s.map_values(|c: char| emitted(c)) =~= Seq::<Seq<char>>::empty());
    }
}

/// The chain of substitutions brings in no character but a space, an
/// underscore and the letter `x`: what holds of these and of every
/// character of the key holds of every character of the prepared key.
pub proof fn lemma_prepared_all(key: Seq<char>, p: spec_fn(char) -> bool)
    requires
        all_chars(key, p),
        p(' '),
        p('_'),
        p('x'),
    ensures
        all_chars(prepared(key), p),
{
    let s1 = replaced(key, seq![' ', ' '], seq![' ']);
    let s2 = trimmed(s1);
    let s3 = replaced(s2, seq![' ', '`', 'x', '`'], seq!['_', 'x']);
    let s4 = replaced(s3, seq!['`', 'x', '`'], seq!['x']);
    let s5 = replaced(s4, seq!['"', ':'], Seq::empty());
    let s6 = replaced(s5, seq![' ', '-', ' '], seq![' ']);
    let s7 = replaced(s6, seq!['/'], seq![' ']);
    lemma_replaced_all(key, seq![' ', ' '], seq![' '], p);
    lemma_trimmed_all(s1, p);
    lemma_replaced_all(s2, seq![' ', '`', 'x', '`'], seq!['_', 'x'], p);
    lemma_replaced_all(s3, seq!['`', 'x', '`'], seq!['x'], p);
    lemma_replaced_all(s4, seq!['"', ':'], Seq::empty(), p);
    lemma_replaced_all(s5, seq![' ', '-', ' '], seq![' '], p);
    lemma_replaced_all(s6, seq!['/'], seq![' '], p);
    lemma_replaced_all(s7, seq!['-'], seq!['_'], p);
}

/// What holds of everything that the character pass emits for a space, an
/// underscore, the letter `x` and each character of the key holds of every
/// character of the normalized key.
pub proof fn lemma_normalized_all(key: Seq<char>, q: spec_fn(char) -> bool)
    requires
        forall|j: int| 0 <= j < key.len() ==> all_chars(emitted(#[trigger] key[j]), q),
        q('_'),
        q('x'),
    ensures
        all_chars(normalized_key(key), q),
{
    let p = |c: char| all_chars(emitted(c), q);
    assert(emitted(' ') == seq!['_']);
    assert(emitted('_') == seq!['_']);
    assert(emitted('x') == seq!['x']);
    assert(all_chars(key, p));
    lemma_prepared_all(key, p);
    let ready = prepared(key);
    assert forall|i: int| 0 <= i < ready.len() implies all_chars(emitted(#[trigger] ready[i]), q) by {
        assert(p(ready[i]));
    }
    lemma_transduced_all(ready, q);
}

/// The lowercase form of a character is never a letter from `A` to `Z`, is
/// its own lowercase form, and is dropped only where the character is.
pub proof fn lemma_lowercase_form(c: char)
    ensures
        !('A' <= lowercase_form(c) <= 'Z'),
        lowercase_form(lowercase_form(c)) == lowercase_form(c),
        !is_dropped(c) ==> !is_dropped(lowercase_form(c)),
        c <= '\u{7f}' ==> lowercase_form(c) <= '\u{7f}',
{
}

/// A normalized key holds none of the dropped characters, whatever the key.
pub proof fn lemma_normalized_has_no_dropped(key: Seq<char>)
    ensures
        forall|i: int|
            0 <= i < normalized_key(key).len() ==> !is_dropped(#[trigger] normalized_key(key)[i]),
{
    let q = |c: char| !is_dropped(c);
    assert forall|j: int| 0 <= j < key.len() implies all_chars(emitted(#[trigger] key[j]), q) by {
        lemma_lowercase_form(key[j]);
    }
    lemma_normalized_all(key, q);
    assert forall|i: int| 0 <= i < normalized_key(key).len() implies !is_dropped(
        #[trigger] normalized_key(key)[i],
    ) by {
        assert(q(normalized_key(key)[i]));
    }
}

/// A normalized key holds no uppercase letter, whatever the key: each of its
/// characters is its own lowercase form, and none is a letter from `A` to
/// `Z`.
pub proof fn lemma_normalized_is_lowercase(key: Seq<char>)
    ensures
        forall|i: int|
            0 <= i < normalized_key(key).len() ==> lowercase_form(
                #[trigger] normalized_key(key)[i],
            ) == normalized_key(key)[i],
        forall|i: int|
            0 <= i < normalized_key(key).len() ==> !('A' <= #[trigger] normalized_key(key)[i]
                <= 'Z'),
{
    let q = |c: char| lowercase_form(c) == c;
    assert forall|j: int| 0 <= j < key.len() implies all_chars(emitted(#[trigger] key[j]), q) by {
        lemma_lowercase_form(key[j]);
    }
    lemma_normalized_all(key, q);
    assert forall|i: int| 0 <= i < normalized_key(key).len() implies lowercase_form(
        #[trigger] normalized_key(key)[i],
    ) == normalized_key(key)[i] && !('A' <= normalized_key(key)[i] <= 'Z') by {
        assert(q(normalized_key(key)[i]));
    }
}

/// Whether the character pass hands `c` on as it is.
pub open spec fn is_settled(c: char) -> bool {
    !is_dropped(c) && c != '?' && c != '-' && c != ' ' && lowercase_form(c) == c
}

/// Whether normalization leaves a key as it is: the character pass hands
/// on each of its characters, no white space stands at either end, and it
/// holds neither the marker `` `x` `` nor `":`.
pub open spec fn is_normal_form(key: Seq<char>) -> bool {
    &&& forall|i: int| 0 <= i < key.len() ==> is_settled(#[trigger] key[i])
    &&& key.len() > 0 ==> !is_white_space(key[0]) && !is_white_space(key.last())
    &&& !occurs_in(key, seq!['`', 'x', '`'])
    &&& !occurs_in(key, seq!['"', ':'])
}

/// The character pass leaves a text unchanged where it hands on each of its
/// characters.
pub proof fn lemma_transduced_settled(s: Seq<char>)
    requires
        forall|i: int| 0 <= i < s.len() ==> is_settled(#[trigger] s[i]),
    ensures
        transduced(s) == s,
    decreases s.len(),
{
    if s.len() > 0 {
        let front = s.drop_last();
        assert forall|i: int| 0 <= i < front.len() implies is_settled(#[trigger] front[i]) by {
            assert(front[i] == s[i]);
        }
        lemma_transduced_settled(front);
        lemma_transduced_push(front, s.last());
        assert(front.push(s.last()) == s);
        assert(is_settled(s[s.len() - 1]));
    } else {
        assert(s.map_values(|c: char| emitted(c)) =~= Seq::<Seq<char>>::empty());
    }
}

/// Normalizing a key in normal form gives the key itself.
pub proof fn lemma_normal_form_is_fixed(key: Seq<char>)
    requires
        is_normal_form(key),
    ensures
        normalized_key(key) == key,
{
    assert forall|c: char| !is_settled(c) implies !key.contains(c) by {
        if key.contains(c) {
            let i = choose|i: int| 0 <= i < key.len() && key[i] == c;
            assert(is_settled(key[i]));
        }
    }
    assert(!is_settled(' ') && !is_settled('/') && !is_settled('-'));
    lemma_no_match_without_char(key, seq![' ', ' '], 0);
    lemma_replaced_without_match(key, seq![' ', ' '], seq![' ']);
    lemma_trimmed_without_white_space(key);
    lemma_no_match_without_char(key, seq![' ', '`', 'x', '`'], 0);
    lemma_replaced_without_match(key, seq![' ', '`', 'x', '`'], seq!['_', 'x']);
    lemma_replaced_without_match(key, seq!['`', 'x', '`'], seq!['x']);
    lemma_replaced_without_match(key, seq!['"', ':'], Seq::empty());
    lemma_no_match_without_char(key, seq![' ', '-', ' '], 0);
    lemma_replaced_without_match(key, seq![' ', '-', ' '], seq![' ']);
    lemma_no_match_without_char(key, seq!['/'], 0);
    lemma_replaced_without_match(key, seq!['/'], seq![' ']);
    lemma_no_match_without_char(key, seq!['-'], 0);
    lemma_replaced_without_match(key, seq!['-'], seq!['_']);
    assert(prepared(key) == key);
    lemma_transduced_settled(key);
}

/// Normalizing twice gives what normalizing once gives, for every key whose
/// normalized form is in normal form.
pub proof fn lemma_normalize_idempotent(key: Seq<char>)
    requires
        is_normal_form(normalized_key(key)),
    ensures
        normalized_key(normalized_key(key)) == normalized_key(key),
{
    lemma_normal_form_is_fixed(normalized_key(key));
}

/// Whether `c` is an ASCII character other than a backquote, a double quote
/// and the white space from tab to carriage return.
pub open spec fn is_plain_source(c: char) -> bool {
    c <= '\u{7f}' && c != '`' && c != '"' && !('\u{9}' <= c <= '\u{d}')
}

/// Whether `c` can stand in the normalized form of a key of plain source
/// characters.
pub open spec fn is_plain_output(c: char) -> bool {
    is_plain_source(c) && is_settled(c)
}

/// The normalized form of a key of plain source characters is in normal
/// form, so normalizing such a key twice gives what normalizing it once
/// gives.
pub proof fn lemma_normalize_idempotent_on_plain(key: Seq<char>)
    requires
        forall|j: int| 0 <= j < key.len() ==> is_plain_source(#[trigger] key[j]),
    ensures
        is_normal_form(normalized_key(key)),
        normalized_key(normalized_key(key)) == normalized_key(key),
{
    let q = |c: char| is_plain_output(c);
    let out = normalized_key(key);
    assert forall|j: int| 0 <= j < key.len() implies all_chars(emitted(#[trigger] key[j]), q) by {
        lemma_emitted_plain(key[j]);
    }
    lemma_normalized_all(key, q);
    assert forall|i: int| 0 <= i < out.len() implies is_plain_output(#[trigger] out[i]) by {
        assert(q(out[i]));
    }
    assert(!out.contains('`')) by {
        if out.contains('`') {
            let i = choose|i: int| 0 <= i < out.len() && out[i] == '`';
            assert(is_plain_output(out[i]));
        }
    }
    assert(!out.contains('"')) by {
        if out.contains('"') {
            let i = choose|i: int| 0 <= i < out.len() && out[i] == '"';
            assert(is_plain_output(out[i]));
        }
    }
    lemma_no_match_without_char(out, seq!['`', 'x', '`'], 0);
    lemma_no_match_without_char(out, seq!['"', ':'], 0);
    if out.len() > 0 {
        assert(is_plain_output(out[0]));
        assert(is_plain_output(out[out.len() - 1]));
    }
    lemma_normalize_idempotent(key);
}

/// Everything that the character pass emits for a plain source character is
/// a plain output character.
proof fn lemma_emitted_plain(c: char)
    requires
        is_plain_source(c),
    ensures
        all_chars(emitted(c), |o: char| is_plain_output(o)),
{
}

/// The normalized form of a key of ASCII characters is made of ASCII
/// characters.
pub proof fn lemma_normalized_ascii(key: Seq<char>)
    requires
        forall|j: int| 0 <= j < key.len() ==> #[trigger] key[j] <= '\u{7f}',
    ensures
        forall|i: int|
            0 <= i < normalized_key(key).len() ==> #[trigger] normalized_key(key)[i] <= '\u{7f}',
{
    let q = |c: char| c <= '\u{7f}';
    assert forall|j: int| 0 <= j < key.len() implies all_chars(emitted(#[trigger] key[j]), q) by {
        lemma_lowercase_form(key[j]);
    }
    lemma_normalized_all(key, q);
    assert forall|i: int| 0 <= i < normalized_key(key).len() implies #[trigger] normalized_key(
        key,
    )[i] <= '\u{7f}' by {
        assert(q(normalized_key(key)[i]));
    }
}

/// The empty key normalizes to the empty key.
pub proof fn lemma_normalized_empty()
    ensures
        normalized_key(Seq::empty()) == Seq::<char>::empty(),
{
    lemma_normal_form_is_fixed(Seq::empty());
}

/// A key made of dropped characters alone, none of them a slash, normalizes
/// to the empty key. A slash is not among them because the substitutions
/// turn it into a space before the character pass sees it.
pub proof fn lemma_normalized_dropped_only(key: Seq<char>)
    requires
        forall|j: int| 0 <= j < key.len() ==> is_dropped(#[trigger] key[j]) && key[j] != '/',
    ensures
        normalized_key(key) == Seq::<char>::empty(),
{
    let q = |c: char| false;
    let p = |c: char| is_dropped(c) && c != '/';
    assert forall|c: char| !p(c) implies !key.contains(c) by {
        if key.contains(c) {
            let i = choose|i: int| 0 <= i < key.len() && key[i] == c;
            assert(p(key[i]));
        }
    }
    assert(!p(' ') && !p('`') && !p('"') && !p('-') && !p('/'));
    lemma_no_match_without_char(key, seq![' ', ' '], 0);
    lemma_replaced_without_match(key, seq![' ', ' '], seq![' ']);
    if key.len() > 0 {
        assert(p(key[0]) && p(key[key.len() - 1]));
    }
    lemma_trimmed_without_white_space(key);
    lemma_no_match_without_char(key, seq![' ', '`', 'x', '`'], 0);
    lemma_replaced_without_match(key, seq![' ', '`', 'x', '`'], seq!['_', 'x']);
    lemma_no_match_without_char(key, seq!['`', 'x', '`'], 0);
    lemma_replaced_without_match(key, seq!['`', 'x', '`'], seq!['x']);
    lemma_no_match_without_char(key, seq!['"', ':'], 0);
    lemma_replaced_without_match(key, seq!['"', ':'], Seq::empty());
    lemma_no_match_without_char(key, seq![' ', '-', ' '], 0);
    lemma_replaced_without_match(key, seq![' ', '-', ' '], seq![' ']);
    lemma_no_match_without_char(key, seq!['/'], 0);
    lemma_replaced_without_match(key, seq!['/'], seq![' ']);
    lemma_no_match_without_char(key, seq!['-'], 0);
    lemma_replaced_without_match(key, seq!['-'], seq!['_']);
    assert(prepared(key) == key);
    assert forall|i: int| 0 <= i < key.len() implies all_chars(emitted(#[trigger] key[i]), q) by {
        assert(p(key[i]));
    }
    lemma_transduced_all(key, q);
    if transduced(key).len() > 0 {
        assert(q(transduced(key)[0]));
    }
    assert(transduced(key) =~= Seq::<char>::empty());
}

} // verus!
