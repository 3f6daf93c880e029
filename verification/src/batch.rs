//! The part of the batch driver that computes: which directory entries are
//! input files, what is written for one of them and where, what is reported,
//! and the running totals. Reading and writing files is left to the caller.

use crate::convert::{convert, converted, join_lines, joined};
use crate::document::ConvertError;
use crate::json::{document_entries, parse_document, parsed_json};
use crate::rebind::RebindTable;
use crate::text::{
    append_chars, chars_of, matches_at, prefix_before, string_of, take_before, texts,
};
use vstd::prelude::*;

verus! {

/// Whether `s` ends with `suffix`.
pub open spec fn has_suffix(s: Seq<char>, suffix: Seq<char>) -> bool {
    suffix.len() <= s.len() && s.subrange(s.len() - suffix.len(), s.len() as int) == suffix
}

/// The ending of the name of an input file: `.json`.
pub open spec fn input_suffix() -> Seq<char> {
    seq!['.', 'j', 's', 'o', 'n']
}

/// The name of the file that is written into each output directory:
/// `/basic.ftl`, with the separator before it.
pub open spec fn output_file() -> Seq<char> {
    seq!['/', 'b', 'a', 's', 'i', 'c', '.', 'f', 't', 'l']
}

/// The name of the output directory of an input file: the name of the file
/// up to its first dot.
pub open spec fn directory_name(entry_name: Seq<char>) -> Seq<char> {
    prefix_before(entry_name, '.')
}

/// The path of the output file of an input file: `basic.ftl` in its output
/// directory.
pub open spec fn target_path(entry_name: Seq<char>) -> Seq<char> {
    directory_name(entry_name) + output_file()
}

/// Tests whether a directory entry is an input file: whether its name ends
/// with `.json`, in lower case.
pub fn is_json_file(entry_name: &str) -> (r: bool)
    ensures
        r == has_suffix(entry_name@, input_suffix()),
{
    let name = chars_of(entry_name);
    let suffix = vec!['.', 'j', 's', 'o', 'n'];
    assert(suffix@ == input_suffix());
    if name.len() < suffix.len() {
        return false;
    }
    matches_at(&name, &suffix, name.len() - suffix.len())
}

/// The name of the output directory of an input file.
pub fn output_directory(entry_name: &str) -> (r: String)
    ensures
        r@ == directory_name(entry_name@),
{
    string_of(&take_before(&chars_of(entry_name), '.'))
}

/// The path of the output file of an input file.
pub fn output_path(entry_name: &str) -> (r: String)
    ensures
        r@ == target_path(entry_name@),
{
    let mut path = take_before(&chars_of(entry_name), '.');
    let file = vec!['/', 'b', 'a', 's', 'i', 'c', '.', 'f', 't', 'l'];
    assert(file@ == output_file());
    append_chars(&mut path, &file);
    string_of(&path)
}

/// The text that `bytes` decode to as UTF-8, with the replacement character
/// U+FFFD in the place of each sequence of bytes that is not valid UTF-8.
pub uninterp spec fn lossy_utf8(bytes: Seq<u8>) -> Seq<char>;

/// `String::from_utf8_lossy` of the standard library decodes bytes as UTF-8
/// and never fails: it puts the replacement character where the bytes are
/// not valid. Nothing of this is proved. The contract claims that the result
/// depends on the bytes alone, and gives it the name `lossy_utf8`.
#[verifier::external_body]
fn decode_lossy(bytes: &[u8]) -> (r: String)
    ensures
        r@ == lossy_utf8(bytes@),
{
    String::from_utf8_lossy(bytes).into_owned()
}

/// What is written for one input file.
#[derive(Debug, PartialEq, Eq)]
pub struct ConvertedFile {
    /// The name of the output directory.
    pub directory: String,
    /// The path of the output file, in that directory.
    pub path: String,
    /// The content of the output file: the output lines, joined by line
    /// feeds.
    pub contents: String,
    /// The number of output lines.
    pub line_count: usize,
}

/// Whether `file` is what is written for an input file of the name
/// `entry_name` that gives the output lines `lines`.
pub open spec fn is_file_of(file: ConvertedFile, entry_name: Seq<char>, lines: Seq<Seq<char>>) -> bool {
    &&& file.directory@ == directory_name(entry_name)
    &&& file.path@ == target_path(entry_name)
    &&& file.contents@ == joined(lines)
    &&& file.line_count == lines.len()
}

/// Whether what the conversion of a file returned is right for an input
/// file of the name `entry_name` that holds `text`.
pub open spec fn is_file_outcome(
    returned: Result<ConvertedFile, ConvertError>,
    entry_name: Seq<char>,
    text: Seq<char>,
    table: Map<Seq<char>, Seq<char>>,
) -> bool {
    match document_entries(parsed_json(text)) {
        None => returned matches Err(ConvertError::MalformedInput),
        Some(entries) => match converted(entries, table) {
            Ok(lines) => returned is Ok && is_file_of(returned->Ok_0, entry_name, lines),
            Err(key) => returned matches Err(ConvertError::InvalidValueShape { key: k }) && k@
                == key,
        },
    }
}

/// Converts the text of one input file.
///
/// Fails with `MalformedInput` where the text is no translation document,
/// and with `InvalidValueShape` where a value of the document stands for no
/// text. Otherwise it gives the content of the output file, where it goes,
/// and how many lines it holds.
pub fn convert_file_text(entry_name: &str, text: &str, table: &RebindTable) -> (r: Result<
    ConvertedFile,
    ConvertError,
>)
    ensures
        is_file_outcome(r, entry_name@, text@, table@),
{
    let document = match parse_document(text) {
        Ok(document) => document,
        Err(e) => {
            return Err(e);
        },
    };
    let lines = match convert(&document, table) {
        Ok(lines) => lines,
        Err(e) => {
            return Err(e);
        },
    };
    assert(texts(lines@).len() == lines@.len());
    Ok(
        ConvertedFile {
            directory: output_directory(entry_name),
            path: output_path(entry_name),
            contents: join_lines(&lines),
            line_count: lines.len(),
        },
    )
}

/// Converts one input file, given as the bytes that it holds. The bytes are
/// decoded as UTF-8, bytes that are not valid being replaced and not
/// refused; the text is then converted as by [`convert_file_text`].
pub fn convert_file(entry_name: &str, contents: &[u8], table: &RebindTable) -> (r: Result<
    ConvertedFile,
    ConvertError,
>)
    ensures
        is_file_outcome(r, entry_name@, lossy_utf8(contents@), table@),
{
    let text = decode_lossy(contents);
    convert_file_text(entry_name, text.as_str(), table)
}

/// The decimal digit of a number below ten.
pub open spec fn digit(d: nat) -> char {
    ((48 + d) as u8) as char
}

/// A number in decimal, without leading zeros.
pub open spec fn decimal(n: nat) -> Seq<char>
    decreases n,
{
    if n < 10 {
        seq![digit(n)]
    } else {
        decimal(n / 10).push(digit(n % 10))
    }
}

/// Appends `n` in decimal to `out`.
fn push_decimal(out: &mut Vec<char>, n: usize)
    ensures
        final(out)@ == old(out)@ + decimal(n as nat),
    decreases n,
{
    if n >= 10 {
        push_decimal(out, n / 10);
    }
    let d: u8 = (n % 10) as u8;
    out.push((48 + d) as char);
}

/// The report on one input file: `<name>: Parsed <count> lines into proper
/// format!`.
pub open spec fn file_report_text(entry_name: Seq<char>, count: nat) -> Seq<char> {
    entry_name + ": Parsed "@ + decimal(count) + " lines into proper format!"@
}

/// The report at the end of a run: `Parsed a total <total> lines into
/// proper format!`.
pub open spec fn total_report_text(total: nat) -> Seq<char> {
    "Parsed a total "@ + decimal(total) + " lines into proper format!"@
}

/// The report on one input file.
pub fn file_report(entry_name: &str, count: usize) -> (r: String)
    ensures
        r@ == file_report_text(entry_name@, count as nat),
{
    let mut out = chars_of(entry_name);
    append_chars(&mut out, &chars_of(": Parsed "));
    push_decimal(&mut out, count);
    append_chars(&mut out, &chars_of(" lines into proper format!"));
    string_of(&out)
}

/// The report at the end of a run.
pub fn total_report(total: usize) -> (r: String)
    ensures
        r@ == total_report_text(total as nat),
{
    let mut out = chars_of("Parsed a total ");
    push_decimal(&mut out, total);
    append_chars(&mut out, &chars_of(" lines into proper format!"));
    string_of(&out)
}

/// The sum of the counts.
pub open spec fn sum_of(counts: Seq<(Seq<char>, nat)>) -> nat
    decreases counts.len(),
{
    if counts.len() == 0 {
        0
    } else {
        sum_of(counts.drop_last()) + counts.last().1
    }
}

/// The line counts of a run: one for each file converted so far, and their
/// total.
pub struct RunTotals {
    counts: Vec<(String, usize)>,
    total: usize,
}

impl RunTotals {
    /// Whether the total that is kept is the sum of the counts recorded.
    pub closed spec fn well_formed(&self) -> bool {
        self.total == sum_of(self.counts())
    }

    /// The files recorded, each with its line count, in the order in which
    /// they were recorded.
    pub closed spec fn counts(&self) -> Seq<(Seq<char>, nat)> {
        self.counts@.map_values(|c: (String, usize)| (c.0@, c.1 as nat))
    }

    /// The totals of a run in which no file has been converted yet.
    pub fn new() -> (r: RunTotals)
        ensures
            r.well_formed(),
            r.counts() == Seq::<(Seq<char>, nat)>::empty(),
    {
        let r = RunTotals { counts: Vec::new(), total: 0 };
        assert(r.counts() =~= Seq::empty());
        r
    }

    /// Tests whether one more file with `line_count` lines can be recorded:
    /// whether the total still fits the machine's word.
    pub fn can_record(&self, line_count: usize) -> (r: bool)
        requires
            self.well_formed(),
        ensures
            r == (sum_of(self.counts()) + line_count <= usize::MAX),
    {
        line_count <= usize::MAX - self.total
    }

    /// Records one more file, with its line count.
    pub fn record(&mut self, entry_name: &str, line_count: usize)
        requires
            old(self).well_formed(),
            sum_of(old(self).counts()) + line_count <= usize::MAX,
        ensures
            final(self).well_formed(),
            final(self).counts() == old(self).counts().push((entry_name@, line_count as nat)),
    {
        let ghost before = self.counts();
        self.counts.push((entry_name.to_owned(), line_count));
        self.total = self.total + line_count;
        proof {
            assert(self.counts() =~= before.push((entry_name@, line_count as nat)));
            assert(self.counts().drop_last() == before);
        }
    }

    /// The number of files recorded.
    pub fn files(&self) -> (r: usize)
        ensures
            r == self.counts().len(),
    {
        self.counts.len()
    }

    /// The line count of the file recorded at place `i`, if there is one.
    pub fn line_count(&self, i: usize) -> (r: Option<usize>)
        ensures
            match r {
                Some(count) => i < self.counts().len() && count == self.counts()[i as int].1,
                None => i >= self.counts().len(),
            },
    {
        if i < self.counts.len() {
            Some(self.counts[i].1)
        } else {
            None
        }
    }

    /// The name of the file recorded at place `i`, if there is one.
    pub fn file_name(&self, i: usize) -> (r: Option<String>)
        ensures
            match r {
                Some(name) => i < self.counts().len() && name@ == self.counts()[i as int].0,
                None => i >= self.counts().len(),
            },
    {
        if i < self.counts.len() {
            Some(self.counts[i].0.clone())
        } else {
            None
        }
    }

    /// The total of the line counts of all files recorded.
    pub fn total(&self) -> (r: usize)
        requires
            self.well_formed(),
        ensures
            r == sum_of(self.counts()),
    {
        self.total
    }
}

} // verus!
