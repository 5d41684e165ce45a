//! Syntax errors of the grammar engine, put into the form of a diagnostic.

use crate::ast::processed_ast::{line_start_of, newlines_before, LineColumnLookTable};
use crate::model::views;
use vstd::prelude::*;
use vstd::string::StringSliceAdditionalSpecFns;
use vstd::utf8::{decode_utf8, encode_utf8, is_char_boundary};

verus! {

/// Where the grammar engine found the error: at one place, or from one
/// place to another. Each place is a line and a column, both counted from 1.
#[derive(Debug, Clone, Copy)]
pub enum LineColLocation {
    Pos((usize, usize)),
    Span((usize, usize), (usize, usize)),
}

/// What the grammar engine found wrong: the rules it looked for and the
/// rules it did not want, by name, or a message of its own.
#[derive(Debug)]
pub enum ErrorVariant {
    ParsingError { positives: Vec<String>, negatives: Vec<String> },
    CustomError { message: String },
}

/// A syntax error as the grammar engine reports it.
#[derive(Debug)]
pub struct SyntaxError {
    pub variant: ErrorVariant,
    pub line_col: LineColLocation,
}

/// A syntax error ready to be shown: the bytes it covers, what to say at
/// that place, and what to add below.
#[derive(Debug)]
pub struct SyntaxDiagnostic {
    pub start: usize,
    pub end: usize,
    pub message: String,
    pub notes: Vec<String>,
}

// ---------------------------------------------------------------------------
// Rule lists
// ---------------------------------------------------------------------------

/// A rule name between backquotes.
pub open spec fn quoted(name: Seq<char>) -> Seq<char> {
    seq!['`'] + name + seq!['`']
}

/// The quoted names with `, ` between.
pub open spec fn comma_list(names: Seq<Seq<char>>) -> Seq<char>
    decreases names.len(),
{
    if names.len() == 0 {
        Seq::empty()
    } else if names.len() == 1 {
        quoted(names[0])
    } else {
        comma_list(names.drop_last()) + seq![',', ' '] + quoted(names.last())
    }
}

/// A list of rules in words: `nothing`, one quoted name, or the quoted
/// names with `, ` between and ` or ` before the last.
pub open spec fn rule_list(names: Seq<Seq<char>>) -> Seq<char> {
    if names.len() == 0 {
        seq!['n', 'o', 't', 'h', 'i', 'n', 'g']
    } else if names.len() == 1 {
        quoted(names[0])
    } else {
        comma_list(names.drop_last()) + seq![' ', 'o', 'r', ' '] + quoted(names.last())
    }
}

/// Appends a rule name between backquotes.
fn append_quoted(text: &mut String, name: &str)
    ensures
        final(text)@ == old(text)@ + quoted(name@),
{
    proof {
        reveal_strlit("`");
        assert("`"@ =~= seq!['`']);
        assert(old(text)@ + "`"@ + name@ + "`"@ =~= old(text)@ + quoted(name@));
    }
    text.append("`");
    text.append(name);
    text.append("`");
}

/// Puts a list of rules into words.
pub fn format_rules(rules: &[String]) -> (text: String)
    ensures
        text@ == rule_list(views(rules@)),
{
    let ghost names = views(rules@);
    if rules.len() == 0 {
        proof {
            reveal_strlit("nothing");
            assert("nothing"@ =~= seq!['n', 'o', 't', 'h', 'i', 'n', 'g']);
        }
        return "nothing".to_owned();
    }
    let last: usize = rules.len() - 1;
    let mut text = String::new();
    let mut i: usize = 0;
    proof {
        assert(names.take(0) =~= Seq::<Seq<char>>::empty());
    }
    while i < last
        invariant
            i <= last,
            last == rules@.len() - 1,
            names == views(rules@),
            text@ == comma_list(names.take(i as int)),
        decreases last - i,
    {
        if i > 0 {
            proof {
                reveal_strlit(", ");
                assert(", "@ =~= seq![',', ' ']);
            }
            text.append(", ");
        }
        append_quoted(&mut text, rules[i].as_str());
        proof {
            let upto = names.take(i + 1);
            assert(upto.drop_last() =~= names.take(i as int));
            assert(upto.last() == rules@[i as int]@);
            if i == 0 {
                assert(Seq::<char>::empty() + quoted(upto[0]) =~= quoted(upto[0]));
            }
        }
        i += 1;
    }
    proof {
        assert(names.take(last as int) =~= names.drop_last());
        assert(names.last() == rules@[last as int]@);
    }
    if last > 0 {
        proof {
            reveal_strlit(" or ");
            assert(" or "@ =~= seq![' ', 'o', 'r', ' ']);
        }
        text.append(" or ");
    } else {
        proof {
            assert(text@ + quoted(names[0]) =~= quoted(names[0]));
        }
    }
    append_quoted(&mut text, rules[last].as_str());
    text
}

// ---------------------------------------------------------------------------
// The place of an error
// ---------------------------------------------------------------------------

/// Whether `offset` is where line `line` of `text` begins, the first line
/// being line 1.
pub open spec fn begins_line(text: Seq<u8>, line: int, offset: int) -> bool {
    &&& 0 <= offset <= text.len()
    &&& line_start_of(text, offset) == offset
    &&& newlines_before(text, offset) == line - 1
}

/// Whether `text` has a line `line`.
pub open spec fn has_line(text: Seq<u8>, line: int) -> bool {
    1 <= line <= newlines_before(text, text.len() as int) + 1
}

/// The offset at which line `line` of `text` begins.
pub open spec fn line_begin(text: Seq<u8>, line: int) -> int {
    choose|offset: int| begins_line(text, line, offset)
}

/// The offset of a place: `column - 1` bytes after the start of its line.
/// `None` where the text has no such line, where the column is 0, and where
/// the offset is too large for another byte to follow it.
pub open spec fn place_offset(text: Seq<u8>, place: (usize, usize)) -> Option<int> {
    let offset = line_begin(text, place.0 as int) + place.1 - 1;
    if has_line(text, place.0 as int) && place.1 >= 1 && offset < usize::MAX {
        Some(offset)
    } else {
        None
    }
}

/// The bytes that an error covers. A single place covers one byte; a span
/// runs from its first place to the byte after its second.
pub open spec fn span_of(text: Seq<u8>, location: LineColLocation) -> Option<(int, int)> {
    match location {
        LineColLocation::Pos(place) => match place_offset(text, place) {
            Some(offset) => Some((offset, offset + 1)),
            None => None,
        },
        LineColLocation::Span(from, to) => match (place_offset(text, from), place_offset(text, to)) {
            (Some(start), Some(last)) => Some((start, last + 1)),
            _ => None,
        },
    }
}

proof fn lemma_newlines_monotonic(text: Seq<u8>, a: int, b: int)
    requires
        0 <= a <= b,
    ensures
        newlines_before(text, a) <= newlines_before(text, b),
    decreases b - a,
{
    if a < b {
        lemma_newlines_monotonic(text, a, b - 1);
    }
}

proof fn lemma_line_start_bound(text: Seq<u8>, offset: int)
    requires
        0 <= offset,
    ensures
        0 <= line_start_of(text, offset) <= offset,
    decreases offset,
{
    if offset > 0 && text[offset - 1] != 10u8 {
        lemma_line_start_bound(text, offset - 1);
    }
}

/// A line begins at one offset only.
pub proof fn lemma_line_begin_unique(text: Seq<u8>, line: int, a: int, b: int)
    requires
        begins_line(text, line, a),
        begins_line(text, line, b),
    ensures
        a == b,
{
    if a < b {
        lemma_line_start_bound(text, b - 1);
        lemma_newlines_monotonic(text, a, b - 1);
    } else if b < a {
        lemma_line_start_bound(text, a - 1);
        lemma_newlines_monotonic(text, b, a - 1);
    }
}

/// The offset of a place in the text of `table`.
pub fn offset_of(table: &LineColumnLookTable, place: (usize, usize)) -> (offset: Option<usize>)
    ensures
        match offset {
            Some(offset) => place_offset(table.text(), place) == Some(offset as int),
            None => place_offset(table.text(), place) is None,
        },
{
    match table.line_start(place.0) {
        None => None,
        Some(start) => {
            proof {
                assert(begins_line(table.text(), place.0 as int, start as int));
                lemma_line_begin_unique(
                    table.text(),
                    place.0 as int,
                    start as int,
                    line_begin(table.text(), place.0 as int),
                );
                lemma_newlines_monotonic(table.text(), start as int, table.text().len() as int);
                lemma_newlines_monotonic(table.text(), 0, start as int);
            }
            if place.1 == 0 {
                None
            } else if place.1 - 1 >= usize::MAX - start {
                None
            } else {
                Some(start + (place.1 - 1))
            }
        },
    }
}

/// The bytes that an error covers in the text of `table`.
pub fn error_span(table: &LineColumnLookTable, location: &LineColLocation) -> (span: Option<
    (usize, usize),
>)
    ensures
        match span {
            Some((start, end)) => span_of(table.text(), *location) == Some(
                (start as int, end as int),
            ),
            None => span_of(table.text(), *location) is None,
        },
{
    match location {
        LineColLocation::Pos(place) => match offset_of(table, *place) {
            Some(offset) => Some((offset, offset + 1)),
            None => None,
        },
        LineColLocation::Span(from, to) => match offset_of(table, *from) {
            Some(start) => match offset_of(table, *to) {
                Some(last) => Some((start, last + 1)),
                None => None,
            },
            None => None,
        },
    }
}

// ---------------------------------------------------------------------------
// The words of an error
// ---------------------------------------------------------------------------

/// The bytes of `text` from `start` to `end`, where these bound a piece of
/// text; nothing otherwise.
pub open spec fn covered_bytes(text: Seq<u8>, start: int, end: int) -> Seq<u8> {
    if 0 <= start < end <= text.len() && is_char_boundary(text, start) && is_char_boundary(
        text.subrange(start, text.len() as int),
        end - start,
    ) {
        text.subrange(start, end)
    } else {
        Seq::empty()
    }
}

/// The piece of `source` from `start` to `end`.
pub fn error_text(source: &str, start: usize, end: usize) -> (text: &str)
    ensures
        text.spec_bytes() == covered_bytes(source.spec_bytes(), start as int, end as int),
{
    let length: usize = source.as_bytes().len();
    if end > start && end <= length && source.is_char_boundary(start) {
        let (_, tail) = source.split_at(start);
        if tail.is_char_boundary(end - start) {
            let (text, _) = tail.split_at(end - start);
            proof {
                assert(text.spec_bytes() =~= source.spec_bytes().subrange(
                    start as int,
                    end as int,
                ));
            }
            return text;
        }
    }
    proof {
        reveal_strlit("");
        assert(""@ =~= Seq::<char>::empty());
        assert(encode_utf8(Seq::<char>::empty()) =~= Seq::<u8>::empty());
    }
    ""
}

/// What to say at the place of the error: the rules looked for, else the
/// rules not wanted, else that parsing failed; or the engine's own
/// message.
pub open spec fn message_of(positives: Seq<Seq<char>>, negatives: Seq<Seq<char>>) -> Seq<char> {
    if positives.len() > 0 {
        "Expected "@ + rule_list(positives)
    } else if negatives.len() > 0 {
        "Unexpected "@ + rule_list(negatives)
    } else {
        "Parsing error"@
    }
}

/// What to add below: where rules were looked for and others not wanted,
/// one note that sets what was found against what was looked for.
pub open spec fn notes_of(positives: Seq<Seq<char>>, negatives: Seq<Seq<char>>, found: Seq<char>)
    -> Seq<Seq<char>> {
    if positives.len() > 0 && negatives.len() > 0 {
        seq![
            "Found `"@ + (if found.len() == 0 {
                "???"@
            } else {
                found
            }) + "`, but expected "@ + rule_list(positives),
        ]
    } else {
        Seq::empty()
    }
}

impl ErrorVariant {
    /// What to say at the place of the error.
    pub open spec fn spec_message(self) -> Seq<char> {
        match self {
            ErrorVariant::ParsingError { positives, negatives } => message_of(
                views(positives@),
                views(negatives@),
            ),
            ErrorVariant::CustomError { message } => message@,
        }
    }

    /// What to add below, `found` being the text at the place of the error.
    pub open spec fn spec_notes(self, found: Seq<char>) -> Seq<Seq<char>> {
        match self {
            ErrorVariant::ParsingError { positives, negatives } => notes_of(
                views(positives@),
                views(negatives@),
                found,
            ),
            ErrorVariant::CustomError { .. } => Seq::empty(),
        }
    }

    /// What to say at the place of the error.
    pub fn message(&self) -> (text: String)
        ensures
            text@ == self.spec_message(),
    {
        match self {
            ErrorVariant::ParsingError { positives, negatives } => {
                if positives.len() > 0 {
                    let mut text = "Expected ".to_owned();
                    text.append(format_rules(positives).as_str());
                    text
                } else if negatives.len() > 0 {
                    let mut text = "Unexpected ".to_owned();
                    text.append(format_rules(negatives).as_str());
                    text
                } else {
                    "Parsing error".to_owned()
                }
            },
            ErrorVariant::CustomError { message } => message.clone(),
        }
    }

    /// What to add below, `found` being the text at the place of the error.
    pub fn notes(&self, found: &str) -> (notes: Vec<String>)
        ensures
            views(notes@) == self.spec_notes(found@),
    {
        let mut notes: Vec<String> = Vec::new();
        match self {
            ErrorVariant::ParsingError { positives, negatives } => {
                if positives.len() > 0 && negatives.len() > 0 {
                    let mut note = "Found `".to_owned();
                    if found.is_empty() {
                        note.append("???");
                    } else {
                        note.append(found);
                    }
                    note.append("`, but expected ");
                    note.append(format_rules(positives).as_str());
                    notes.push(note);
                    proof {
                        assert(views(notes@) =~= seq![note@]);
                    }
                } else {
                    proof {
                        assert(views(notes@) =~= Seq::<Seq<char>>::empty());
                    }
                }
            },
            ErrorVariant::CustomError { .. } => {
                proof {
                    assert(views(notes@) =~= Seq::<Seq<char>>::empty());
                }
            },
        }
        notes
    }
}

/// The diagnostic of a syntax error in `source`: the bytes it covers, what
/// to say there, and the notes. `None` where the error names a place that
/// `source` does not have.
pub fn syntax_diagnostic(source: &str, error: &SyntaxError) -> (diagnostic: Option<
    SyntaxDiagnostic,
>)
    ensures
        match diagnostic {
            Some(d) => {
                &&& span_of(source.spec_bytes(), error.line_col) == Some(
                    (d.start as int, d.end as int),
                )
                &&& d.message@ == error.variant.spec_message()
                &&& views(d.notes@) == error.variant.spec_notes(
                    decode_utf8(covered_bytes(source.spec_bytes(), d.start as int, d.end as int)),
                )
            },
            None => span_of(source.spec_bytes(), error.line_col) is None,
        },
{
    let table = LineColumnLookTable::new(source);
    match error_span(&table, &error.line_col) {
        None => None,
        Some((start, end)) => {
            let found = error_text(source, start, end);
            proof {
                vstd::utf8::encode_utf8_decode_utf8(found@);
            }
            Some(
                SyntaxDiagnostic {
                    start,
                    end,
                    message: error.variant.message(),
                    notes: error.variant.notes(found),
                },
            )
        },
    }
}

} // verus!
