//! Character sequences: moving between strings and vectors of characters,
//! global substitution of a pattern, and trimming of white space.
//!
//! Every function here works on whole characters, never on bytes, and its
//! contract is stated over `Seq<char>`.

use vstd::prelude::*;

verus! {

/// `String::push` of the standard library appends one character to the end
/// of the string and changes nothing else. This is taken on trust.
pub assume_specification[ String::push ](s: &mut String, ch: char)
    ensures
        final(s)@ == old(s)@.push(ch),
;

/// The characters of `s`, in order.
pub fn chars_of(s: &str) -> (r: Vec<char>)
    ensures
        r@ == s@,
{
    let mut out: Vec<char> = Vec::new();
    for c in it: s.chars()
        invariant
            it.seq() == s@,
            out@ == s@.subrange(0, it.index() as int),
    {
        out.push(c);
    }
    out
}

/// The string made of `chars`, in order.
pub fn string_of(chars: &Vec<char>) -> (r: String)
    ensures
        r@ == chars@,
{
    let mut out = String::new();
    let mut i: usize = 0;
    while i < chars.len()
        invariant
            i <= chars.len(),
            out@ == chars@.subrange(0, i as int),
        decreases chars.len() - i,
    {
        out.push(chars[i]);
        i += 1;
    }
    out
}

/// Appends `more` to `out`.
pub fn append_chars(out: &mut Vec<char>, more: &Vec<char>)
    ensures
        final(out)@ == old(out)@ + more@,
{
    let mut k: usize = 0;
    while k < more.len()
        invariant
            k <= more.len(),
            out@ == old(out)@ + more@.subrange(0, k as int),
        decreases more.len() - k,
    {
        out.push(more[k]);
        k += 1;
    }
}

/// Whether `pat` stands in `s` at position `i`.
pub open spec fn occurs_at(s: Seq<char>, pat: Seq<char>, i: int) -> bool {
    0 <= i && i + pat.len() <= s.len() && s.subrange(i, i + pat.len()) == pat
}

/// Whether `pat` stands anywhere in `s`.
pub open spec fn occurs_in(s: Seq<char>, pat: Seq<char>) -> bool {
    exists|i: int| occurs_at(s, pat, i)
}

/// `s` with every match of `pat` replaced by `with`. Matches are found from
/// left to right and do not overlap: after a match the search goes on behind
/// it. An empty pattern matches before every character and at the end.
pub open spec fn replaced(s: Seq<char>, pat: Seq<char>, with: Seq<char>) -> Seq<char>
    decreases s.len(),
{
    if s.len() == 0 {
        if pat.len() == 0 {
            with
        } else {
            s
        }
    } else if pat.len() == 0 {
        with + seq![s[0]] + replaced(s.drop_first(), pat, with)
    } else if occurs_at(s, pat, 0) {
        with + replaced(s.subrange(pat.len() as int, s.len() as int), pat, with)
    } else {
        seq![s[0]] + replaced(s.drop_first(), pat, with)
    }
}

/// Tests whether `pat` stands in `s` at position `i`.
pub fn matches_at(s: &Vec<char>, pat: &Vec<char>, i: usize) -> (r: bool)
    ensures
        r == occurs_at(s@, pat@, i as int),
{
    if i > s.len() || pat.len() > s.len() - i {
        return false;
    }
    let mut k: usize = 0;
    while k < pat.len()
        invariant
            k <= pat.len(),
            i + pat.len() <= s.len(),
            s@.subrange(i as int, i + k) == pat@.subrange(0, k as int),
        decreases pat.len() - k,
    {
        if s[i + k] != pat[k] {
            assert(s@.subrange(i as int, i + pat.len())[k as int] != pat@[k as int]);
            return false;
        }
        assert(s@.subrange(i as int, i + k + 1) == s@.subrange(i as int, i + k).push(s@[i + k]));
        assert(pat@.subrange(0, k + 1) == pat@.subrange(0, k as int).push(pat@[k as int]));
        k += 1;
    }
    assert(pat@.subrange(0, pat.len() as int) == pat@);
    true
}

/// Replaces every match of `pat` in `s` by `with`.
pub fn replace_all(s: &Vec<char>, pat: &Vec<char>, with: &Vec<char>) -> (r: Vec<char>)
    ensures
        r@ == replaced(s@, pat@, with@),
{
    let mut out: Vec<char> = Vec::new();
    let mut i: usize = 0;
    assert(s@.subrange(0, s.len() as int) == s@);
    while i < s.len()
        invariant
            i <= s.len(),
            out@ + replaced(s@.subrange(i as int, s.len() as int), pat@, with@) == replaced(
                s@,
                pat@,
                with@,
            ),
        decreases s.len() - i,
    {
        let ghost rest = s@.subrange(i as int, s.len() as int);
        if pat.len() == 0 {
            assert(rest.drop_first() == s@.subrange(i + 1, s.len() as int));
            assert(rest[0] == s@[i as int]);
            append_chars(&mut out, with);
            out.push(s[i]);
            i += 1;
        } else if matches_at(s, pat, i) {
            assert(rest.subrange(0, pat.len() as int) == s@.subrange(i as int, i + pat.len()));
            assert(rest.subrange(pat.len() as int, rest.len() as int) == s@.subrange(
                i + pat.len(),
                s.len() as int,
            ));
            append_chars(&mut out, with);
            i += pat.len();
        } else {
            assert(i + pat.len() <= s.len() ==> rest.subrange(0, pat.len() as int) == s@.subrange(
                i as int,
                i + pat.len(),
            ));
            assert(rest.drop_first() == s@.subrange(i + 1, s.len() as int));
            assert(rest[0] == s@[i as int]);
            out.push(s[i]);
            i += 1;
        }
    }
    assert(s@.subrange(s.len() as int, s.len() as int) == Seq::<char>::empty());
    if pat.len() == 0 {
        append_chars(&mut out, with);
    }
    out
}

/// The characters that count as white space: those with the Unicode property
/// `White_Space`.
pub open spec fn is_white_space(c: char) -> bool {
    ||| '\u{9}' <= c <= '\u{d}'
    ||| c == ' '
    ||| c == '\u{85}'
    ||| c == '\u{a0}'
    ||| c == '\u{1680}'
    ||| '\u{2000}' <= c <= '\u{200a}'
    ||| c == '\u{2028}'
    ||| c == '\u{2029}'
    ||| c == '\u{202f}'
    ||| c == '\u{205f}'
    ||| c == '\u{3000}'
}

/// Tests whether `c` is white space.
pub fn white_space(c: char) -> (r: bool)
    ensures
        r == is_white_space(c),
{
    ('\u{9}' <= c && c <= '\u{d}') || c == ' ' || c == '\u{85}' || c == '\u{a0}' || c
        == '\u{1680}' || ('\u{2000}' <= c && c <= '\u{200a}') || c == '\u{2028}' || c
        == '\u{2029}' || c == '\u{202f}' || c == '\u{205f}' || c == '\u{3000}'
}

/// `s` without its leading white space.
pub open spec fn trimmed_start(s: Seq<char>) -> Seq<char>
    decreases s.len(),
{
    if s.len() > 0 && is_white_space(s[0]) {
        trimmed_start(s.drop_first())
    } else {
        s
    }
}

/// `s` without its trailing white space.
pub open spec fn trimmed_end(s: Seq<char>) -> Seq<char>
    decreases s.len(),
{
    if s.len() > 0 && is_white_space(s.last()) {
        trimmed_end(s.drop_last())
    } else {
        s
    }
}

/// `s` without its leading and trailing white space.
pub open spec fn trimmed(s: Seq<char>) -> Seq<char> {
    trimmed_end(trimmed_start(s))
}

/// Removes leading and trailing white space.
pub fn trim(s: &Vec<char>) -> (r: Vec<char>)
    ensures
        r@ == trimmed(s@),
{
    let n = s.len();
    let mut a: usize = 0;
    assert(s@.subrange(0, n as int) == s@);
    while a < n && white_space(s[a])
        invariant
            n == s.len(),
            a <= n,
            trimmed_start(s@) == trimmed_start(s@.subrange(a as int, n as int)),
        decreases n - a,
    {
        assert(s@.subrange(a as int, n as int).drop_first() == s@.subrange(a + 1, n as int));
        a += 1;
    }
    let mut b: usize = n;
    while b > a && white_space(s[b - 1])
        invariant
            n == s.len(),
            a <= b <= n,
            trimmed_start(s@) == s@.subrange(a as int, n as int),
            trimmed(s@) == trimmed_end(s@.subrange(a as int, b as int)),
        decreases b,
    {
        assert(s@.subrange(a as int, b as int).drop_last() == s@.subrange(a as int, b - 1));
        b -= 1;
    }
    let mut out: Vec<char> = Vec::new();
    let mut i: usize = a;
    while i < b
        invariant
            a <= i <= b <= s.len(),
            out@ == s@.subrange(a as int, i as int),
        decreases b - i,
    {
        out.push(s[i]);
        i += 1;
    }
    out
}

/// The characters of `s` that stand before its first `stop`, or all of `s`
/// where it holds no `stop`.
pub open spec fn prefix_before(s: Seq<char>, stop: char) -> Seq<char>
    decreases s.len(),
{
    if s.len() == 0 || s[0] == stop {
        Seq::empty()
    } else {
        seq![s[0]] + prefix_before(s.drop_first(), stop)
    }
}

/// `prefix_before` is a prefix of `s` that holds no `stop` and that ends
/// where `s` ends or just before a `stop`.
pub proof fn lemma_prefix_before(s: Seq<char>, stop: char)
    ensures
        prefix_before(s, stop).len() <= s.len(),
        prefix_before(s, stop) == s.subrange(0, prefix_before(s, stop).len() as int),
        !prefix_before(s, stop).contains(stop),
        prefix_before(s, stop).len() < s.len() ==> s[prefix_before(s, stop).len() as int] == stop,
    decreases s.len(),
{
    if s.len() == 0 || s[0] == stop {
    } else {
        let rest = s.drop_first();
        lemma_prefix_before(rest, stop);
        let p = prefix_before(rest, stop);
        assert(prefix_before(s, stop) =~= s.subrange(0, p.len() as int + 1));
        assert forall|i: int| 0 <= i < prefix_before(s, stop).len() implies prefix_before(
            s,
            stop,
        )[i] != stop by {
            if i > 0 {
                assert(p.contains(p[i - 1]));
            }
        }
    }
}

/// The characters of `s` before its first `stop`.
pub fn take_before(s: &Vec<char>, stop: char) -> (r: Vec<char>)
    ensures
        r@ == prefix_before(s@, stop),
{
    let mut out: Vec<char> = Vec::new();
    let mut i: usize = 0;
    assert(s@.subrange(0, s.len() as int) == s@);
    while i < s.len() && s[i] != stop
        invariant
            i <= s.len(),
            out@ + prefix_before(s@.subrange(i as int, s.len() as int), stop) == prefix_before(
                s@,
                stop,
            ),
        decreases s.len() - i,
    {
        assert(s@.subrange(i as int, s.len() as int).drop_first() == s@.subrange(
            i + 1,
            s.len() as int,
        ));
        out.push(s[i]);
        i += 1;
    }
    out
}

/// What each of the strings holds.
pub open spec fn texts(strings: Seq<String>) -> Seq<Seq<char>> {
    strings.map_values(|s: String| s@)
}

/// Whether `p` holds of every character of `s`.
pub open spec fn all_chars(s: Seq<char>, p: spec_fn(char) -> bool) -> bool {
    forall|i: int| 0 <= i < s.len() ==> p(#[trigger] s[i])
}

/// Where `pat` stands in `s` at `i`, the characters of `s` from `i` on are
/// those of `pat`.
pub proof fn lemma_occurrence(s: Seq<char>, pat: Seq<char>, i: int, k: int)
    requires
        occurs_at(s, pat, i),
        0 <= k < pat.len(),
    ensures
        s[i + k] == pat[k],
{
    assert(s.subrange(i, i + pat.len())[k] == s[i + k]);
}

/// A substitution brings in no character but those of the replacement: what
/// holds of every character of `s` and of `with` holds of every character of
/// the result.
pub proof fn lemma_replaced_all(
    s: Seq<char>,
    pat: Seq<char>,
    with: Seq<char>,
    p: spec_fn(char) -> bool,
)
    requires
        all_chars(s, p),
        all_chars(with, p),
    ensures
        all_chars(replaced(s, pat, with), p),
    decreases s.len(),
{
    if s.len() == 0 {
    } else if pat.len() > 0 && occurs_at(s, pat, 0) {
        let rest = s.subrange(pat.len() as int, s.len() as int);
        assert forall|i: int| 0 <= i < rest.len() implies p(#[trigger] rest[i]) by {
            assert(rest[i] == s[i + pat.len()]);
        }
        lemma_replaced_all(rest, pat, with, p);
    } else {
        let rest = s.drop_first();
        assert forall|i: int| 0 <= i < rest.len() implies p(#[trigger] rest[i]) by {
            assert(rest[i] == s[i + 1]);
        }
        lemma_replaced_all(rest, pat, with, p);
        assert(p(s[0]));
    }
}

/// A substitution changes nothing where the pattern does not occur.
pub proof fn lemma_replaced_without_match(s: Seq<char>, pat: Seq<char>, with: Seq<char>)
    requires
        pat.len() > 0,
        !occurs_in(s, pat),
    ensures
        replaced(s, pat, with) == s,
    decreases s.len(),
{
    if s.len() > 0 {
        assert(!occurs_at(s, pat, 0));
        let rest = s.drop_first();
        assert forall|i: int| !occurs_at(rest, pat, i) by {
            if occurs_at(rest, pat, i) {
                assert(rest.subrange(i, i + pat.len()) == s.subrange(i + 1, i + 1 + pat.len()));
                assert(occurs_at(s, pat, i + 1));
            }
        }
        lemma_replaced_without_match(rest, pat, with);
        assert(seq![s[0]] + rest == s);
    }
}

/// The pattern does not occur in a text that lacks one of its characters.
pub proof fn lemma_no_match_without_char(s: Seq<char>, pat: Seq<char>, k: int)
    requires
        0 <= k < pat.len(),
        !s.contains(pat[k]),
    ensures
        !occurs_in(s, pat),
{
    assert forall|i: int| !occurs_at(s, pat, i) by {
        if occurs_at(s, pat, i) {
            lemma_occurrence(s, pat, i, k);
            assert(s.contains(s[i + k]));
        }
    }
}

/// Trimming brings in no character: what holds of every character of `s`
/// holds of every character of the result.
pub proof fn lemma_trimmed_all(s: Seq<char>, p: spec_fn(char) -> bool)
    requires
        all_chars(s, p),
    ensures
        all_chars(trimmed_start(s), p),
        all_chars(trimmed_end(s), p),
        all_chars(trimmed(s), p),
    decreases s.len(),
{
    if s.len() > 0 {
        let tail = s.drop_first();
        assert forall|i: int| 0 <= i < tail.len() implies p(#[trigger] tail[i]) by {
            assert(tail[i] == s[i + 1]);
        }
        lemma_trimmed_all(tail, p);
    }
    lemma_trimmed_end_all(s, p);
    lemma_trimmed_end_all(trimmed_start(s), p);
}

/// Trimming the end brings in no character.
proof fn lemma_trimmed_end_all(s: Seq<char>, p: spec_fn(char) -> bool)
    requires
        all_chars(s, p),
    ensures
        all_chars(trimmed_end(s), p),
    decreases s.len(),
{
    if s.len() > 0 {
        let front = s.drop_last();
        assert forall|i: int| 0 <= i < front.len() implies p(#[trigger] front[i]) by {
            assert(front[i] == s[i]);
        }
        lemma_trimmed_end_all(front, p);
    }
}

/// Trimming changes nothing where no white space stands at either end.
pub proof fn lemma_trimmed_without_white_space(s: Seq<char>)
    requires
        s.len() > 0 ==> !is_white_space(s[0]) && !is_white_space(s.last()),
    ensures
        trimmed(s) == s,
{
}

} // verus!
