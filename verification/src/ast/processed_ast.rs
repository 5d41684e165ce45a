//! The processed program: labels attached to the statements they precede,
//! same-line comments adopted, every item with its line and column.

use crate::ast::raw_ast::{
    Comment, Directive, DirectiveView, Instruction, InstructionView, ItemView, Label, Lexeme,
    Span,
};
use crate::model::{lemma_views_drop_last, lemma_views_reverse, reversed, views};
use crate::text::starts_with_char;
use pest::Stack;
use vstd::prelude::*;
use vstd::string::StringSliceAdditionalSpecFns;

verus! {

/// A place in the source text, both parts counted from 1. The column counts
/// bytes.
#[derive(Debug, Clone, Copy, PartialEq, Eq, Structural)]
pub struct LineColumn {
    pub line: usize,
    pub column: usize,
}

impl LineColumn {
    /// Whether two places are on one line.
    pub fn at_the_same_line(&self, other: &LineColumn) -> (same: bool)
        ensures
            same == (self.line == other.line),
    {
        self.line == other.line
    }

    /// The line, counted from 1.
    pub fn line(&self) -> (line: usize)
        ensures
            line == self.line,
    {
        self.line
    }

    /// The column, counted from 1.
    pub fn column(&self) -> (column: usize)
        ensures
            column == self.column,
    {
        self.column
    }
}

/// The offset at which the line that holds `offset` begins: just after the
/// last line feed before `offset`, or 0.
pub open spec fn line_start_of(text: Seq<u8>, offset: int) -> int
    decreases offset,
{
    if offset <= 0 {
        0
    } else if text[offset - 1] == 10u8 {
        offset
    } else {
        line_start_of(text, offset - 1)
    }
}

/// The number of line feeds among the first `offset` bytes of `text`.
pub open spec fn newlines_before(text: Seq<u8>, offset: int) -> int
    decreases offset,
{
    if offset <= 0 {
        0
    } else if text[offset - 1] == 10u8 {
        newlines_before(text, offset - 1) + 1
    } else {
        newlines_before(text, offset - 1)
    }
}

/// The line and column of the byte at `offset`.
pub open spec fn line_column_of(text: Seq<u8>, offset: int) -> LineColumn {
    LineColumn {
        line: (newlines_before(text, offset) + 1) as usize,
        column: (offset - line_start_of(text, offset) + 1) as usize,
    }
}

/// `starts` lists, in order, the offsets at which the lines of the first
/// `upto` bytes of `text` begin.
pub open spec fn lists_line_starts(text: Seq<u8>, starts: Seq<usize>, upto: int) -> bool {
    &&& starts.len() >= 1
    &&& starts[0] == 0
    &&& forall|i: int, j: int| 0 <= i < j < starts.len() ==> starts[i] < starts[j]
    &&& forall|k: int|
        1 <= k < starts.len() ==> 1 <= #[trigger] starts[k] <= upto && text[starts[k] - 1] == 10u8
    &&& forall|i: int|
        0 <= i < upto && #[trigger] text[i] == 10u8 ==> exists|k: int|
            0 <= k < starts.len() && #[trigger] starts[k] == i + 1
}

/// An offset between the start of line `k + 1` and the start of the next
/// line lies on line `k + 1`.
pub proof fn lemma_locate(text: Seq<u8>, starts: Seq<usize>, k: int, offset: int)
    requires
        lists_line_starts(text, starts, text.len() as int),
        0 <= k < starts.len(),
        starts[k] <= offset <= text.len(),
        k + 1 < starts.len() ==> offset < starts[k + 1],
    ensures
        line_start_of(text, offset) == starts[k],
        newlines_before(text, offset) == k,
    decreases offset,
{
    if offset == starts[k] {
        if k > 0 {
            lemma_locate(text, starts, k - 1, offset - 1);
        }
    } else {
        if text[offset - 1] == 10u8 {
            let j = choose|j: int| 0 <= j < starts.len() && #[trigger] starts[j] == offset - 1 + 1;
            if j <= k {
                if j < k {
                    assert(starts[j] < starts[k]);
                }
            } else if j > k + 1 {
                assert(starts[k + 1] < starts[j]);
            }
            assert(false);
        }
        lemma_locate(text, starts, k, offset - 1);
    }
}

/// The start of every line of one text, for looking up the line and column
/// of a byte offset.
pub struct LineColumnLookTable {
    line_starts: Vec<usize>,
    length: usize,
    text: Ghost<Seq<u8>>,
}

impl LineColumnLookTable {
    #[verifier::type_invariant]
    spec fn inv(&self) -> bool {
        &&& self.length == self.text@.len()
        &&& lists_line_starts(self.text@, self.line_starts@, self.text@.len() as int)
    }

    /// The bytes of the text that the table was built for.
    pub closed spec fn text(&self) -> Seq<u8> {
        self.text@
    }

    /// Builds the table in one pass over the text.
    pub fn new(file_content: &str) -> (table: Self)
        ensures
            table.text() == file_content.spec_bytes(),
    {
        let bytes = file_content.as_bytes();
        let length: usize = bytes.len();
        let mut line_starts: Vec<usize> = Vec::new();
        line_starts.push(0);
        let mut i: usize = 0;
        while i < length
            invariant
                i <= length,
                length == bytes@.len(),
                lists_line_starts(bytes@, line_starts@, i as int),
            decreases length - i,
        {
            if bytes[i] == 10u8 {
                let ghost before = line_starts@;
                line_starts.push(i + 1);
                proof {
                    let after = line_starts@;
                    assert forall|a: int, b: int| 0 <= a < b < after.len() implies after[a]
                        < after[b] by {
                        if a > 0 {
                            assert(before[a] <= i);
                        }
                    }
                    assert forall|p: int| 0 <= p < i + 1 && #[trigger] bytes@[p] == 10u8 implies exists|
                        k: int,
                    |
                        0 <= k < after.len() && #[trigger] after[k] == p + 1 by {
                        if p < i {
                            let k = choose|k: int|
                                0 <= k < before.len() && #[trigger] before[k] == p + 1;
                            assert(after[k] == p + 1);
                        } else {
                            assert(after[after.len() - 1] == p + 1);
                        }
                    }
                }
            }
            i += 1;
        }
        LineColumnLookTable { line_starts, length, text: Ghost(bytes@) }
    }

    /// The offset at which a line begins, the first line being line 1; `None`
    /// where the text has no such line.
    pub fn line_start(&self, line: usize) -> (start: Option<usize>)
        ensures
            start is Some <==> 1 <= line <= newlines_before(
                self.text(),
                self.text().len() as int,
            ) + 1,
            start matches Some(offset) ==> {
                &&& offset <= self.text().len()
                &&& line_start_of(self.text(), offset as int) == offset
                &&& newlines_before(self.text(), offset as int) == line - 1
            },
    {
        proof {
            use_type_invariant(self);
            lemma_locate(
                self.text@,
                self.line_starts@,
                self.line_starts@.len() - 1,
                self.text@.len() as int,
            );
        }
        if line == 0 || line > self.line_starts.len() {
            None
        } else {
            proof {
                lemma_locate(
                    self.text@,
                    self.line_starts@,
                    line - 1,
                    self.line_starts@[line - 1] as int,
                );
            }
            Some(self.line_starts[line - 1])
        }
    }

    /// The line and column at which a span begins.
    pub fn get_line_and_column(&self, span: &Span) -> (found: LineColumn)
        requires
            span.start < self.text().len(),
        ensures
            found == line_column_of(self.text(), span.start as int),
            found.line == newlines_before(self.text(), span.start as int) + 1,
            found.column == span.start - line_start_of(self.text(), span.start as int) + 1,
            1 <= found.line,
            1 <= found.column <= span.start + 1,
    {
        proof {
            use_type_invariant(self);
        }
        let start: usize = span.start;
        let mut low: usize = 0;
        let mut high: usize = self.line_starts.len();
        while high - low > 1
            invariant
                0 <= low < high <= self.line_starts@.len(),
                self.line_starts@[low as int] <= start,
                high < self.line_starts@.len() ==> start < self.line_starts@[high as int],
            decreases high - low,
        {
            let middle: usize = low + (high - low) / 2;
            if self.line_starts[middle] <= start {
                low = middle;
            } else {
                high = middle;
            }
        }
        proof {
            lemma_locate(self.text@, self.line_starts@, low as int, start as int);
        }
        LineColumn { line: low + 1, column: start - self.line_starts[low] + 1 }
    }
}


// ---------------------------------------------------------------------------
// The processed program
// ---------------------------------------------------------------------------

/// One item of the processed program.
#[derive(Debug)]
pub enum ProgramItem {
    /// A comment on a line of its own.
    Comment(Comment, LineColumn),
    /// An instruction with the labels before it and the comment after it.
    Instruction(Vec<Label>, Instruction, Option<Comment>, LineColumn),
    /// A directive with the labels before it and the comment after it.
    Directive(Vec<Label>, Directive, Option<Comment>, LineColumn),
    /// The labels at the end of the file that no statement follows.
    EOL(Vec<Label>),
}

/// The processed program: the items of a source text in source order.
#[derive(Debug)]
pub struct Program {
    pub items: Vec<ProgramItem>,
}

/// The model of an item of the processed program.
pub enum Item {
    Comment(Lexeme, LineColumn),
    Instruction(Seq<Lexeme>, InstructionView, Option<Lexeme>, LineColumn),
    Directive(Seq<Lexeme>, DirectiveView, Option<Lexeme>, LineColumn),
    EOL(Seq<Lexeme>),
}

/// The model of a comment that may be absent.
pub open spec fn comment_view(comment: Option<Comment>) -> Option<Lexeme> {
    match comment {
        Some(c) => Some(c@),
        None => None,
    }
}

impl View for ProgramItem {
    type V = Item;

    open spec fn view(&self) -> Item {
        match self {
            ProgramItem::Comment(c, at) => Item::Comment(c@, *at),
            ProgramItem::Instruction(labels, i, c, at) => Item::Instruction(
                views(labels@),
                i@,
                comment_view(*c),
                *at,
            ),
            ProgramItem::Directive(labels, d, c, at) => Item::Directive(
                views(labels@),
                d@,
                comment_view(*c),
                *at,
            ),
            ProgramItem::EOL(labels) => Item::EOL(views(labels@)),
        }
    }
}

impl View for Program {
    type V = Seq<Item>;

    open spec fn view(&self) -> Seq<Item> {
        views(self.items@)
    }
}

/// Whether a comment begins with `;`.
pub open spec fn is_comment_text(content: Seq<char>) -> bool {
    content.len() > 0 && content[0] == ';'
}

impl Item {
    /// Whether the item is a comment on a line of its own.
    pub open spec fn is_comment(self) -> bool {
        self is Comment
    }

    /// Whether the item is an instruction.
    pub open spec fn is_instruction(self) -> bool {
        self is Instruction
    }

    /// Whether the item is a directive.
    pub open spec fn is_directive(self) -> bool {
        self is Directive
    }

    /// Whether the item is the labels at the end of the file.
    pub open spec fn is_eol(self) -> bool {
        self is EOL
    }

    /// An instruction or a directive.
    pub open spec fn is_statement(self) -> bool {
        self is Instruction || self is Directive
    }

    /// The labels that the item carries.
    pub open spec fn labels(self) -> Seq<Lexeme> {
        match self {
            Item::Comment(..) => Seq::empty(),
            Item::Instruction(labels, ..) => labels,
            Item::Directive(labels, ..) => labels,
            Item::EOL(labels) => labels,
        }
    }

    /// The comment that a statement has adopted.
    pub open spec fn trailing_comment(self) -> Option<Lexeme> {
        match self {
            Item::Instruction(_, _, comment, _) => comment,
            Item::Directive(_, _, comment, _) => comment,
            _ => None,
        }
    }

    /// Every comment begins with `;` and every directive with `.`.
    pub open spec fn wf(self) -> bool {
        match self {
            Item::Comment(c, _) => is_comment_text(c.content),
            Item::Instruction(_, _, comment, _) => comment matches Some(c) ==> is_comment_text(
                c.content,
            ),
            Item::Directive(_, d, comment, _) => {
                &&& d.content.len() > 0 && d.content[0] == '.'
                &&& comment matches Some(c) ==> is_comment_text(c.content)
            },
            Item::EOL(_) => true,
        }
    }
}

/// A copy of a run of labels.
fn clone_labels(labels: &Vec<Label>) -> (copy: Vec<Label>)
    ensures
        views(copy@) == views(labels@),
{
    let mut copy: Vec<Label> = Vec::new();
    let mut i: usize = 0;
    while i < labels.len()
        invariant
            i <= labels@.len(),
            views(copy@) == views(labels@).take(i as int),
        decreases labels@.len() - i,
    {
        let ghost before = views(copy@);
        copy.push(labels[i].clone());
        proof {
            assert(views(copy@) =~= before.push(labels@[i as int]@));
            assert(views(labels@).take(i + 1) =~= views(labels@).take(i as int).push(
                labels@[i as int]@,
            ));
        }
        i += 1;
    }
    proof {
        assert(views(labels@).take(labels@.len() as int) =~= views(labels@));
    }
    copy
}

/// A copy of a comment that may be absent.
fn clone_comment(comment: &Option<Comment>) -> (copy: Option<Comment>)
    ensures
        comment_view(copy) == comment_view(*comment),
{
    match comment {
        Some(c) => Some(c.clone()),
        None => None,
    }
}

impl Clone for ProgramItem {
    fn clone(&self) -> (copy: Self)
        ensures
            copy@ == self@,
    {
        match self {
            ProgramItem::Comment(comment, at) => ProgramItem::Comment(comment.clone(), *at),
            ProgramItem::Instruction(labels, instruction, comment, at) => ProgramItem::Instruction(
                clone_labels(labels),
                instruction.clone(),
                clone_comment(comment),
                *at,
            ),
            ProgramItem::Directive(labels, directive, comment, at) => ProgramItem::Directive(
                clone_labels(labels),
                directive.clone(),
                clone_comment(comment),
                *at,
            ),
            ProgramItem::EOL(labels) => ProgramItem::EOL(clone_labels(labels)),
        }
    }
}

impl ProgramItem {
    /// Whether the item is a comment on a line of its own.
    pub fn is_comment(&self) -> (r: bool)
        ensures
            r == self@.is_comment(),
    {
        matches!(self, ProgramItem::Comment(..))
    }

    /// Whether the item is an instruction.
    pub fn is_instruction(&self) -> (r: bool)
        ensures
            r == self@.is_instruction(),
    {
        matches!(self, ProgramItem::Instruction(..))
    }

    /// Whether the item is a directive.
    pub fn is_directive(&self) -> (r: bool)
        ensures
            r == self@.is_directive(),
    {
        matches!(self, ProgramItem::Directive(..))
    }

    /// Whether the item is the labels at the end of the file.
    pub fn is_eol(&self) -> (r: bool)
        ensures
            r == self@.is_eol(),
    {
        matches!(self, ProgramItem::EOL(..))
    }
}

impl Program {
    /// Every comment begins with `;` and every directive with `.`.
    pub open spec fn wf(&self) -> bool {
        all_wf(self@)
    }

    /// The items, in source order.
    pub fn items(&self) -> (items: &Vec<ProgramItem>)
        ensures
            *items == self.items,
    {
        &self.items
    }

    /// Whether every comment of the program begins with `;` and every
    /// directive with `.`.
    pub fn is_well_formed(&self) -> (well_formed: bool)
        ensures
            well_formed == self.wf(),
    {
        let mut i: usize = 0;
        while i < self.items.len()
            invariant
                i <= self.items@.len(),
                all_wf(self@.take(i as int)),
            decreases self.items@.len() - i,
        {
            let item = &self.items[i];
            let sound = match item {
                ProgramItem::Comment(comment, _) => starts_with_char(
                    comment.content.as_str(),
                    ';',
                ),
                ProgramItem::Instruction(_, _, comment, _) => Self::is_comment(comment),
                ProgramItem::Directive(_, directive, comment, _) => starts_with_char(
                    directive.content.as_str(),
                    '.',
                ) && Self::is_comment(comment),
                ProgramItem::EOL(_) => true,
            };
            proof {
                assert(self@[i as int] == item@);
            }
            if !sound {
                return false;
            }
            proof {
                let upto = self@.take(i + 1);
                assert forall|k: int| 0 <= k < upto.len() implies (#[trigger] upto[k]).wf() by {
                    if k < i {
                        assert(upto[k] == self@.take(i as int)[k]);
                    }
                }
            }
            i += 1;
        }
        proof {
            assert(self@.take(self.items@.len() as int) =~= self@);
        }
        true
    }

    /// Whether a trailing comment, where there is one, begins with `;`.
    fn is_comment(comment: &Option<Comment>) -> (r: bool)
        ensures
            r == (comment_view(*comment) matches Some(c) ==> is_comment_text(c.content)),
    {
        match comment {
            Some(c) => starts_with_char(c.content.as_str(), ';'),
            None => true,
        }
    }
}

/// The processed program under the name by which the formatter knows it.
pub type FormatterProgram = Program;

/// An item of the processed program under the name by which the formatter
/// knows it.
pub type FormatterProgramItem = ProgramItem;

// ---------------------------------------------------------------------------
// What the transform computes
// ---------------------------------------------------------------------------

/// Where a span begins in `text`.
pub open spec fn place(text: Seq<u8>, span: Span) -> LineColumn {
    line_column_of(text, span.start as int)
}

/// Whether every item whose place is looked up begins inside a text of
/// `length` bytes.
pub open spec fn begins_within(items: Seq<ItemView>, length: int) -> bool {
    forall|i: int|
        0 <= i < items.len() ==> match #[trigger] items[i] {
            ItemView::Comment(c) => c.span.start < length,
            ItemView::Label(_) => true,
            ItemView::Instruction(s) => s.span.start < length,
            ItemView::Directive(s) => s.span.start < length,
        }
}

/// Label attachment: every statement takes the labels since the statement
/// before it, in the order they were written; a comment passes through;
/// labels left over at the end become one last item. `pending` holds the
/// labels already seen.
pub open spec fn attach(items: Seq<ItemView>, pending: Seq<Lexeme>, text: Seq<u8>) -> Seq<Item>
    decreases items.len(),
{
    if items.len() == 0 {
        if pending.len() > 0 {
            seq![Item::EOL(pending)]
        } else {
            Seq::empty()
        }
    } else {
        let rest = items.skip(1);
        match items[0] {
            ItemView::Label(l) => attach(rest, pending.push(l), text),
            ItemView::Comment(c) => seq![Item::Comment(c, place(text, c.span))] + attach(
                rest,
                pending,
                text,
            ),
            ItemView::Instruction(s) => seq![
                Item::Instruction(pending, s, None, place(text, s.span)),
            ] + attach(rest, Seq::empty(), text),
            ItemView::Directive(s) => seq![Item::Directive(pending, s, None, place(text, s.span))]
                + attach(rest, Seq::empty(), text),
        }
    }
}

/// Whether `current` adopts `next`: a statement takes the comment that
/// follows it on its own line.
pub open spec fn adopts(current: Item, next: Item) -> bool {
    match next {
        Item::Comment(_, comment_at) => match current {
            Item::Instruction(_, _, _, at) => comment_at.line == at.line,
            Item::Directive(_, _, _, at) => comment_at.line == at.line,
            _ => false,
        },
        _ => false,
    }
}

/// `current` with the comment of `next` in its trailing slot.
pub open spec fn adopting(current: Item, next: Item) -> Item {
    match next {
        Item::Comment(c, _) => match current {
            Item::Instruction(labels, s, _, at) => Item::Instruction(labels, s, Some(c), at),
            Item::Directive(labels, s, _, at) => Item::Directive(labels, s, Some(c), at),
            _ => current,
        },
        _ => current,
    }
}

/// Comment attachment: wherever a statement is followed by a comment on its
/// line, the two become one item; everything else stays as it is.
pub open spec fn merge(items: Seq<Item>) -> Seq<Item>
    decreases items.len(),
{
    if items.len() == 0 {
        Seq::empty()
    } else if items.len() >= 2 && adopts(items[0], items[1]) {
        seq![adopting(items[0], items[1])] + merge(items.skip(2))
    } else {
        seq![items[0]] + merge(items.skip(1))
    }
}

/// The processed program of a typed program over `text`.
pub open spec fn spec_transform(items: Seq<ItemView>, text: Seq<u8>, hybrid: bool) -> Seq<Item> {
    let attached = attach(items, Seq::empty(), text);
    if hybrid {
        merge(attached)
    } else {
        attached
    }
}

/// Whether every item of a processed program is well formed.
pub open spec fn all_wf(items: Seq<Item>) -> bool {
    forall|i: int| 0 <= i < items.len() ==> (#[trigger] items[i]).wf()
}

proof fn lemma_all_wf_cons(first: Item, rest: Seq<Item>)
    requires
        first.wf(),
        all_wf(rest),
    ensures
        all_wf(seq![first] + rest),
{
    let whole = seq![first] + rest;
    assert forall|i: int| 0 <= i < whole.len() implies (#[trigger] whole[i]).wf() by {
        if i > 0 {
            assert(whole[i] == rest[i - 1]);
        }
    }
}

/// Label attachment keeps comments and directives as they are.
pub proof fn lemma_attach_wf(items: Seq<ItemView>, pending: Seq<Lexeme>, text: Seq<u8>)
    requires
        forall|i: int| 0 <= i < items.len() ==> (#[trigger] items[i]).wf(),
    ensures
        all_wf(attach(items, pending, text)),
    decreases items.len(),
{
    if items.len() > 0 {
        let rest = items.skip(1);
        assert forall|i: int| 0 <= i < rest.len() implies (#[trigger] rest[i]).wf() by {
            assert(rest[i] == items[i + 1]);
        }
        assert(items[0].wf());
        match items[0] {
            ItemView::Label(l) => {
                lemma_attach_wf(rest, pending.push(l), text);
            },
            ItemView::Comment(c) => {
                lemma_attach_wf(rest, pending, text);
                lemma_all_wf_cons(
                    Item::Comment(c, place(text, c.span)),
                    attach(rest, pending, text),
                );
            },
            ItemView::Instruction(s) => {
                lemma_attach_wf(rest, Seq::empty(), text);
                lemma_all_wf_cons(
                    Item::Instruction(pending, s, None, place(text, s.span)),
                    attach(rest, Seq::empty(), text),
                );
            },
            ItemView::Directive(s) => {
                lemma_attach_wf(rest, Seq::empty(), text);
                lemma_all_wf_cons(
                    Item::Directive(pending, s, None, place(text, s.span)),
                    attach(rest, Seq::empty(), text),
                );
            },
        }
    }
}

/// Comment attachment keeps comments and directives as they are.
pub proof fn lemma_merge_wf(items: Seq<Item>)
    requires
        all_wf(items),
    ensures
        all_wf(merge(items)),
    decreases items.len(),
{
    if items.len() == 0 {
    } else if items.len() >= 2 && adopts(items[0], items[1]) {
        let rest = items.skip(2);
        assert forall|i: int| 0 <= i < rest.len() implies (#[trigger] rest[i]).wf() by {
            assert(rest[i] == items[i + 2]);
        }
        lemma_merge_wf(rest);
        assert(items[0].wf());
        assert(items[1].wf());
        lemma_all_wf_cons(adopting(items[0], items[1]), merge(rest));
    } else {
        let rest = items.skip(1);
        assert forall|i: int| 0 <= i < rest.len() implies (#[trigger] rest[i]).wf() by {
            assert(rest[i] == items[i + 1]);
        }
        lemma_merge_wf(rest);
        assert(items[0].wf());
        lemma_all_wf_cons(items[0], merge(rest));
    }
}

// ---------------------------------------------------------------------------
// What holds of every processed program
// ---------------------------------------------------------------------------

/// Whether an item of the typed program is an instruction or a directive.
pub open spec fn is_statement(item: ItemView) -> bool {
    item is Instruction || item is Directive
}

/// The line on which an item of the typed program begins.
pub open spec fn line_of(item: ItemView, text: Seq<u8>) -> usize {
    match item {
        ItemView::Comment(c) => place(text, c.span).line,
        ItemView::Label(l) => place(text, l.span).line,
        ItemView::Instruction(s) => place(text, s.span).line,
        ItemView::Directive(s) => place(text, s.span).line,
    }
}

/// The labels as items of the typed program.
pub open spec fn label_items(labels: Seq<Lexeme>) -> Seq<ItemView> {
    Seq::new(labels.len(), |i: int| ItemView::Label(labels[i]))
}

/// A statement as label attachment leaves it: with the labels that waited,
/// without a comment, at its place.
pub open spec fn attached(statement: ItemView, labels: Seq<Lexeme>, text: Seq<u8>) -> Item
    recommends
        is_statement(statement),
{
    match statement {
        ItemView::Instruction(s) => Item::Instruction(labels, s, None, place(text, s.span)),
        ItemView::Directive(s) => Item::Directive(labels, s, None, place(text, s.span)),
        ItemView::Comment(c) => Item::Comment(c, place(text, c.span)),
        ItemView::Label(l) => Item::EOL(labels),
    }
}

/// Label attachment run over labels first only adds them to those that
/// wait.
pub proof fn lemma_attach_labels(
    labels: Seq<Lexeme>,
    rest: Seq<ItemView>,
    pending: Seq<Lexeme>,
    text: Seq<u8>,
)
    ensures
        attach(label_items(labels) + rest, pending, text) == attach(rest, pending + labels, text),
    decreases labels.len(),
{
    let items = label_items(labels) + rest;
    if labels.len() == 0 {
        assert(items =~= rest);
        assert(pending + labels =~= pending);
    } else {
        let later = labels.skip(1);
        assert(items[0] == ItemView::Label(labels[0]));
        assert(items.skip(1) =~= label_items(later) + rest);
        lemma_attach_labels(later, rest, pending.push(labels[0]), text);
        assert(pending.push(labels[0]) + later =~= pending + labels);
    }
}

/// A statement that follows a run of labels carries exactly these labels,
/// in the order in which they were written, whether or not comments are
/// adopted afterwards.
pub proof fn lemma_labels_flush(
    labels: Seq<Lexeme>,
    statement: ItemView,
    rest: Seq<ItemView>,
    text: Seq<u8>,
    hybrid: bool,
)
    requires
        is_statement(statement),
    ensures
        ({
            let processed = spec_transform(
                label_items(labels) + (seq![statement] + rest),
                text,
                hybrid,
            );
            &&& processed.len() > 0
            &&& processed[0].is_statement()
            &&& processed[0].labels() == labels
            &&& processed[0].labels().len() == labels.len()
        }),
{
    let tail = seq![statement] + rest;
    lemma_attach_labels(labels, tail, Seq::empty(), text);
    assert(Seq::<Lexeme>::empty() + labels =~= labels);
    assert(tail[0] == statement);
    let first = attached(statement, labels, text);
    let later = attach(tail.skip(1), Seq::empty(), text);
    assert(attach(tail, labels, text) == seq![first] + later);
    let whole = seq![first] + later;
    assert(whole[0] == first);
    if hybrid {
        if whole.len() >= 2 && adopts(whole[0], whole[1]) {
            assert(merge(whole)[0] == adopting(whole[0], whole[1]));
        } else {
            assert(merge(whole)[0] == whole[0]);
        }
    }
}

/// Whether none but the last item of a processed program holds labels
/// that no statement follows.
pub open spec fn trailing_labels_last(items: Seq<Item>) -> bool {
    forall|i: int| 0 <= i < items.len() - 1 ==> !(#[trigger] items[i]).is_eol()
}

proof fn lemma_trailing_cons(first: Item, rest: Seq<Item>)
    requires
        !first.is_eol(),
        trailing_labels_last(rest),
    ensures
        trailing_labels_last(seq![first] + rest),
        rest.len() > 0 ==> (seq![first] + rest).last() == rest.last(),
{
    let whole = seq![first] + rest;
    assert forall|i: int| 0 <= i < whole.len() - 1 implies !(#[trigger] whole[i]).is_eol() by {
        if i > 0 {
            assert(whole[i] == rest[i - 1]);
        }
    }
}

/// Label attachment ends with the labels that no statement follows, where
/// there are any, and has them nowhere else.
pub proof fn lemma_attach_trailing(items: Seq<ItemView>, pending: Seq<Lexeme>, text: Seq<u8>)
    ensures
        trailing_labels_last(attach(items, pending, text)),
        items.len() == 0 && pending.len() == 0 ==> attach(items, pending, text).len() == 0,
    decreases items.len(),
{
    if items.len() > 0 {
        let rest = items.skip(1);
        match items[0] {
            ItemView::Label(l) => {
                lemma_attach_trailing(rest, pending.push(l), text);
            },
            ItemView::Comment(c) => {
                lemma_attach_trailing(rest, pending, text);
                lemma_trailing_cons(
                    Item::Comment(c, place(text, c.span)),
                    attach(rest, pending, text),
                );
            },
            ItemView::Instruction(s) => {
                lemma_attach_trailing(rest, Seq::empty(), text);
                lemma_trailing_cons(
                    Item::Instruction(pending, s, None, place(text, s.span)),
                    attach(rest, Seq::empty(), text),
                );
            },
            ItemView::Directive(s) => {
                lemma_attach_trailing(rest, Seq::empty(), text);
                lemma_trailing_cons(
                    Item::Directive(pending, s, None, place(text, s.span)),
                    attach(rest, Seq::empty(), text),
                );
            },
        }
    }
}

/// Label attachment of a program that ends with a run of labels ends with
/// one item that holds the run, after the labels that waited before it.
pub proof fn lemma_attach_ends_with_labels(
    items: Seq<ItemView>,
    labels: Seq<Lexeme>,
    pending: Seq<Lexeme>,
    text: Seq<u8>,
)
    requires
        labels.len() > 0,
    ensures
        ({
            let out = attach(items + label_items(labels), pending, text);
            &&& out.len() > 0
            &&& out.last() matches Item::EOL(held)
            &&& held.len() >= labels.len()
            &&& held.skip(held.len() - labels.len()) == labels
        }),
    decreases items.len(),
{
    let whole = items + label_items(labels);
    if items.len() == 0 {
        assert(whole =~= label_items(labels) + Seq::<ItemView>::empty());
        lemma_attach_labels(labels, Seq::empty(), pending, text);
        let held = pending + labels;
        assert(held.skip(held.len() - labels.len()) =~= labels);
    } else {
        let rest = items.skip(1);
        assert(whole[0] == items[0]);
        assert(whole.skip(1) =~= rest + label_items(labels));
        match items[0] {
            ItemView::Label(l) => {
                lemma_attach_ends_with_labels(rest, labels, pending.push(l), text);
            },
            ItemView::Comment(c) => {
                lemma_attach_ends_with_labels(rest, labels, pending, text);
            },
            ItemView::Instruction(s) => {
                lemma_attach_ends_with_labels(rest, labels, Seq::empty(), text);
            },
            ItemView::Directive(s) => {
                lemma_attach_ends_with_labels(rest, labels, Seq::empty(), text);
            },
        }
    }
}

/// Comment attachment leaves the labels at the end of the file where they
/// are, and makes no others.
pub proof fn lemma_merge_trailing(items: Seq<Item>)
    requires
        trailing_labels_last(items),
    ensures
        trailing_labels_last(merge(items)),
        items.len() > 0 && items.last().is_eol() ==> merge(items).len() > 0 && merge(items).last()
            == items.last(),
    decreases items.len(),
{
    if items.len() == 0 {
    } else if items.len() >= 2 && adopts(items[0], items[1]) {
        let rest = items.skip(2);
        assert forall|i: int| 0 <= i < rest.len() - 1 implies !(#[trigger] rest[i]).is_eol() by {
            assert(rest[i] == items[i + 2]);
        }
        lemma_merge_trailing(rest);
        lemma_trailing_cons(adopting(items[0], items[1]), merge(rest));
        if rest.len() > 0 {
            assert(rest.last() == items.last());
        }
    } else {
        let rest = items.skip(1);
        assert forall|i: int| 0 <= i < rest.len() - 1 implies !(#[trigger] rest[i]).is_eol() by {
            assert(rest[i] == items[i + 1]);
        }
        lemma_merge_trailing(rest);
        if rest.len() > 0 {
            assert(rest.last() == items.last());
            assert(!items[0].is_eol());
            lemma_trailing_cons(items[0], merge(rest));
        } else {
            assert(merge(rest) =~= Seq::<Item>::empty());
            assert(seq![items[0]] + merge(rest) =~= seq![items[0]]);
        }
    }
}

/// A program that ends with a run of labels gives exactly one item of
/// trailing labels, the last one, and the run stands at its end in the
/// order in which it was written.
pub proof fn lemma_trailing_labels(
    items: Seq<ItemView>,
    labels: Seq<Lexeme>,
    text: Seq<u8>,
    hybrid: bool,
)
    requires
        labels.len() > 0,
    ensures
        ({
            let processed = spec_transform(items + label_items(labels), text, hybrid);
            &&& processed.len() > 0
            &&& processed.last() matches Item::EOL(held)
            &&& held.len() >= labels.len()
            &&& held.skip(held.len() - labels.len()) == labels
            &&& trailing_labels_last(processed)
        }),
{
    let whole = items + label_items(labels);
    lemma_attach_ends_with_labels(items, labels, Seq::empty(), text);
    lemma_attach_trailing(whole, Seq::empty(), text);
    if hybrid {
        lemma_merge_trailing(attach(whole, Seq::empty(), text));
    }
}

/// Without a run of labels at its end, a program gives no item of trailing
/// labels at all.
pub proof fn lemma_no_trailing_labels(
    items: Seq<ItemView>,
    text: Seq<u8>,
    hybrid: bool,
    i: int,
)
    requires
        items.len() == 0 || is_statement(items.last()),
        0 <= i < spec_transform(items, text, hybrid).len(),
    ensures
        !spec_transform(items, text, hybrid)[i].is_eol(),
{
    lemma_attach_no_trailing(items, Seq::empty(), text);
    if hybrid {
        lemma_merge_no_trailing(attach(items, Seq::empty(), text));
    }
}

/// Whether no item of a processed program holds trailing labels.
pub open spec fn no_trailing_labels(items: Seq<Item>) -> bool {
    forall|i: int| 0 <= i < items.len() ==> !(#[trigger] items[i]).is_eol()
}

proof fn lemma_no_trailing_cons(first: Item, rest: Seq<Item>)
    requires
        !first.is_eol(),
        no_trailing_labels(rest),
    ensures
        no_trailing_labels(seq![first] + rest),
{
    let whole = seq![first] + rest;
    assert forall|i: int| 0 <= i < whole.len() implies !(#[trigger] whole[i]).is_eol() by {
        if i > 0 {
            assert(whole[i] == rest[i - 1]);
        }
    }
}

proof fn lemma_attach_no_trailing(items: Seq<ItemView>, pending: Seq<Lexeme>, text: Seq<u8>)
    requires
        if items.len() == 0 {
            pending.len() == 0
        } else {
            is_statement(items.last())
        },
    ensures
        no_trailing_labels(attach(items, pending, text)),
    decreases items.len(),
{
    if items.len() > 0 {
        let rest = items.skip(1);
        if rest.len() > 0 {
            assert(rest.last() == items.last());
        }
        match items[0] {
            ItemView::Label(l) => {
                lemma_attach_no_trailing(rest, pending.push(l), text);
            },
            ItemView::Comment(c) => {
                lemma_attach_no_trailing(rest, pending, text);
                lemma_no_trailing_cons(
                    Item::Comment(c, place(text, c.span)),
                    attach(rest, pending, text),
                );
            },
            ItemView::Instruction(s) => {
                lemma_attach_no_trailing(rest, Seq::empty(), text);
                lemma_no_trailing_cons(
                    Item::Instruction(pending, s, None, place(text, s.span)),
                    attach(rest, Seq::empty(), text),
                );
            },
            ItemView::Directive(s) => {
                lemma_attach_no_trailing(rest, Seq::empty(), text);
                lemma_no_trailing_cons(
                    Item::Directive(pending, s, None, place(text, s.span)),
                    attach(rest, Seq::empty(), text),
                );
            },
        }
    }
}

proof fn lemma_merge_no_trailing(items: Seq<Item>)
    requires
        no_trailing_labels(items),
    ensures
        no_trailing_labels(merge(items)),
    decreases items.len(),
{
    if items.len() == 0 {
    } else if items.len() >= 2 && adopts(items[0], items[1]) {
        let rest = items.skip(2);
        assert forall|i: int| 0 <= i < rest.len() implies !(#[trigger] rest[i]).is_eol() by {
            assert(rest[i] == items[i + 2]);
        }
        lemma_merge_no_trailing(rest);
        lemma_no_trailing_cons(adopting(items[0], items[1]), merge(rest));
    } else {
        let rest = items.skip(1);
        assert forall|i: int| 0 <= i < rest.len() implies !(#[trigger] rest[i]).is_eol() by {
            assert(rest[i] == items[i + 1]);
        }
        lemma_merge_no_trailing(rest);
        assert(!items[0].is_eol());
        lemma_no_trailing_cons(items[0], merge(rest));
    }
}

/// A statement that is followed at once by a comment on its line has that
/// comment in its trailing slot, and the comment is no item of its own:
/// what follows the statement in the processed program is what the rest of
/// the source gives.
pub proof fn lemma_same_line_comment(
    statement: ItemView,
    comment: Lexeme,
    rest: Seq<ItemView>,
    pending: Seq<Lexeme>,
    text: Seq<u8>,
)
    requires
        is_statement(statement),
        place(text, comment.span).line == line_of(statement, text),
    ensures
        ({
            let processed = merge(
                attach(seq![statement, ItemView::Comment(comment)] + rest, pending, text),
            );
            &&& processed.len() > 0
            &&& processed[0] == adopting(
                attached(statement, pending, text),
                Item::Comment(comment, place(text, comment.span)),
            )
            &&& processed[0].trailing_comment() == Some(comment)
            &&& processed.skip(1) == merge(attach(rest, Seq::empty(), text))
        }),
{
    let items = seq![statement, ItemView::Comment(comment)] + rest;
    let after = items.skip(1);
    assert(items[0] == statement);
    assert(after[0] == ItemView::Comment(comment));
    assert(after.skip(1) =~= rest);
    let first = attached(statement, pending, text);
    let second = Item::Comment(comment, place(text, comment.span));
    let later = attach(rest, Seq::empty(), text);
    assert(attach(after, Seq::empty(), text) == seq![second] + later);
    let whole = seq![first] + (seq![second] + later);
    assert(attach(items, pending, text) == whole);
    assert(whole[0] == first);
    assert(whole[1] == second);
    assert(whole.skip(2) =~= later);
    assert(adopts(first, second));
    assert(merge(whole) == seq![adopting(first, second)] + merge(later));
    assert(merge(whole).skip(1) =~= merge(later));
}

/// A comment that follows a statement on another line stays an item of its
/// own, right behind the statement, and the statement has no trailing
/// comment.
pub proof fn lemma_own_line_comment(
    statement: ItemView,
    comment: Lexeme,
    rest: Seq<ItemView>,
    pending: Seq<Lexeme>,
    text: Seq<u8>,
)
    requires
        is_statement(statement),
        place(text, comment.span).line != line_of(statement, text),
    ensures
        ({
            let processed = merge(
                attach(seq![statement, ItemView::Comment(comment)] + rest, pending, text),
            );
            &&& processed.len() >= 2
            &&& processed[0] == attached(statement, pending, text)
            &&& processed[0].trailing_comment() is None
            &&& processed[1] == Item::Comment(comment, place(text, comment.span))
        }),
{
    let items = seq![statement, ItemView::Comment(comment)] + rest;
    let after = items.skip(1);
    assert(items[0] == statement);
    assert(after[0] == ItemView::Comment(comment));
    let first = attached(statement, pending, text);
    let second = Item::Comment(comment, place(text, comment.span));
    let later = attach(after.skip(1), Seq::empty(), text);
    assert(attach(after, Seq::empty(), text) == seq![second] + later);
    let whole = seq![first] + (seq![second] + later);
    assert(attach(items, pending, text) == whole);
    assert(whole[0] == first);
    assert(whole[1] == second);
    assert(!adopts(first, second));
    let tail = whole.skip(1);
    assert(tail =~= seq![second] + later);
    assert(tail[0] == second);
    assert(merge(whole) == seq![first] + merge(tail));
    if tail.len() >= 2 && adopts(tail[0], tail[1]) {
        assert(false);
    }
    assert(merge(tail) == seq![second] + merge(tail.skip(1)));
    assert(merge(whole)[1] == merge(tail)[0]);
}

/// Whether an item is as label attachment makes it: a statement without a
/// trailing comment, a comment at the place of its span.
pub open spec fn is_fresh(item: Item, text: Seq<u8>) -> bool {
    match item {
        Item::Comment(c, at) => at == place(text, c.span),
        Item::Instruction(_, _, comment, _) => comment is None,
        Item::Directive(_, _, comment, _) => comment is None,
        Item::EOL(_) => true,
    }
}

/// Whether every trailing comment of an item stands on the line of its
/// statement.
pub open spec fn comment_on_line(item: Item, text: Seq<u8>) -> bool {
    match item {
        Item::Instruction(_, _, Some(c), at) => place(text, c.span).line == at.line,
        Item::Directive(_, _, Some(c), at) => place(text, c.span).line == at.line,
        _ => true,
    }
}

proof fn lemma_attach_fresh(items: Seq<ItemView>, pending: Seq<Lexeme>, text: Seq<u8>, i: int)
    requires
        0 <= i < attach(items, pending, text).len(),
    ensures
        is_fresh(attach(items, pending, text)[i], text),
    decreases items.len(),
{
    if items.len() > 0 {
        let rest = items.skip(1);
        match items[0] {
            ItemView::Label(l) => {
                lemma_attach_fresh(rest, pending.push(l), text, i);
            },
            ItemView::Comment(c) => {
                if i > 0 {
                    lemma_attach_fresh(rest, pending, text, i - 1);
                }
            },
            ItemView::Instruction(s) => {
                if i > 0 {
                    lemma_attach_fresh(rest, Seq::empty(), text, i - 1);
                }
            },
            ItemView::Directive(s) => {
                if i > 0 {
                    lemma_attach_fresh(rest, Seq::empty(), text, i - 1);
                }
            },
        }
    }
}

proof fn lemma_merge_on_line(items: Seq<Item>, text: Seq<u8>, i: int)
    requires
        forall|k: int| 0 <= k < items.len() ==> is_fresh(#[trigger] items[k], text),
        0 <= i < merge(items).len(),
    ensures
        comment_on_line(merge(items)[i], text),
    decreases items.len(),
{
    if items.len() == 0 {
    } else if items.len() >= 2 && adopts(items[0], items[1]) {
        let rest = items.skip(2);
        assert forall|k: int| 0 <= k < rest.len() implies is_fresh(#[trigger] rest[k], text) by {
            assert(rest[k] == items[k + 2]);
        }
        assert(is_fresh(items[1], text));
        if i > 0 {
            lemma_merge_on_line(rest, text, i - 1);
        }
    } else {
        let rest = items.skip(1);
        assert forall|k: int| 0 <= k < rest.len() implies is_fresh(#[trigger] rest[k], text) by {
            assert(rest[k] == items[k + 1]);
        }
        assert(is_fresh(items[0], text));
        if i > 0 {
            lemma_merge_on_line(rest, text, i - 1);
        }
    }
}

/// No comment is attached across lines: every trailing comment of a
/// processed program begins on the line on which its statement begins.
pub proof fn lemma_trailing_comment_on_line(
    items: Seq<ItemView>,
    text: Seq<u8>,
    hybrid: bool,
    i: int,
)
    requires
        0 <= i < spec_transform(items, text, hybrid).len(),
    ensures
        comment_on_line(spec_transform(items, text, hybrid)[i], text),
{
    let attached_items = attach(items, Seq::empty(), text);
    if hybrid {
        assert forall|k: int| 0 <= k < attached_items.len() implies is_fresh(
            #[trigger] attached_items[k],
            text,
        ) by {
            lemma_attach_fresh(items, Seq::empty(), text, k);
        }
        lemma_merge_on_line(attached_items, text, i);
    } else {
        lemma_attach_fresh(items, Seq::empty(), text, i);
    }
}

/// What an item of the typed program adds to the statements, the comments
/// and the labels of the program.
pub struct Parts {
    pub statements: Seq<ItemView>,
    pub comments: Seq<Lexeme>,
    pub labels: Seq<Lexeme>,
}

impl Parts {
    /// No statement, no comment, no label.
    pub open spec fn nothing() -> Parts {
        Parts { statements: Seq::empty(), comments: Seq::empty(), labels: Seq::empty() }
    }

    /// The parts of `self` with those of `later` behind them.
    pub open spec fn followed_by(self, later: Parts) -> Parts {
        Parts {
            statements: self.statements + later.statements,
            comments: self.comments + later.comments,
            labels: self.labels + later.labels,
        }
    }
}

/// The parts of one item of the typed program.
pub open spec fn raw_parts_of(item: ItemView) -> Parts {
    match item {
        ItemView::Comment(c) => Parts { comments: seq![c], ..Parts::nothing() },
        ItemView::Label(l) => Parts { labels: seq![l], ..Parts::nothing() },
        _ => Parts { statements: seq![item], ..Parts::nothing() },
    }
}

/// The statements, the comments and the labels of a typed program, each in
/// source order.
pub open spec fn raw_parts(items: Seq<ItemView>) -> Parts
    decreases items.len(),
{
    if items.len() == 0 {
        Parts::nothing()
    } else {
        raw_parts_of(items[0]).followed_by(raw_parts(items.skip(1)))
    }
}

/// The parts of one item of the processed program: its labels, its
/// statement, and the comment that it is or has adopted.
pub open spec fn parts_of(item: Item) -> Parts {
    match item {
        Item::Comment(c, _) => Parts { comments: seq![c], ..Parts::nothing() },
        Item::Instruction(labels, s, comment, _) => Parts {
            statements: seq![ItemView::Instruction(s)],
            comments: match comment {
                Some(c) => seq![c],
                None => Seq::empty(),
            },
            labels,
        },
        Item::Directive(labels, s, comment, _) => Parts {
            statements: seq![ItemView::Directive(s)],
            comments: match comment {
                Some(c) => seq![c],
                None => Seq::empty(),
            },
            labels,
        },
        Item::EOL(labels) => Parts { labels, ..Parts::nothing() },
    }
}

/// The statements, the comments and the labels of a processed program, each
/// in the order of the items.
pub open spec fn parts(items: Seq<Item>) -> Parts
    decreases items.len(),
{
    if items.len() == 0 {
        Parts::nothing()
    } else {
        parts_of(items[0]).followed_by(parts(items.skip(1)))
    }
}

proof fn lemma_parts_cons(first: Item, rest: Seq<Item>)
    ensures
        parts(seq![first] + rest) == parts_of(first).followed_by(parts(rest)),
{
    let whole = seq![first] + rest;
    assert(whole[0] == first);
    assert(whole.skip(1) =~= rest);
}

proof fn lemma_followed_by_nothing(p: Parts)
    ensures
        Parts::nothing().followed_by(p) == p,
        p.followed_by(Parts::nothing()) == p,
{
    assert(Parts::nothing().followed_by(p).statements =~= p.statements);
    assert(Parts::nothing().followed_by(p).comments =~= p.comments);
    assert(Parts::nothing().followed_by(p).labels =~= p.labels);
    assert(p.followed_by(Parts::nothing()).statements =~= p.statements);
    assert(p.followed_by(Parts::nothing()).comments =~= p.comments);
    assert(p.followed_by(Parts::nothing()).labels =~= p.labels);
}

proof fn lemma_followed_by_associative(a: Parts, b: Parts, c: Parts)
    ensures
        a.followed_by(b).followed_by(c) == a.followed_by(b.followed_by(c)),
{
    assert(a.followed_by(b).followed_by(c).statements =~= a.followed_by(b.followed_by(c)).statements);
    assert(a.followed_by(b).followed_by(c).comments =~= a.followed_by(b.followed_by(c)).comments);
    assert(a.followed_by(b).followed_by(c).labels =~= a.followed_by(b.followed_by(c)).labels);
}

/// Label attachment keeps every statement, comment and label, each kind in
/// its order; the labels that waited come first.
pub proof fn lemma_attach_keeps_parts(items: Seq<ItemView>, pending: Seq<Lexeme>, text: Seq<u8>)
    ensures
        parts(attach(items, pending, text)) == (Parts {
            labels: pending,
            ..Parts::nothing()
        }).followed_by(raw_parts(items)),
    decreases items.len(),
{
    let waited = Parts { labels: pending, ..Parts::nothing() };
    if items.len() == 0 {
        lemma_followed_by_nothing(waited);
        if pending.len() > 0 {
            lemma_parts_cons(Item::EOL(pending), Seq::empty());
            assert(seq![Item::EOL(pending)] + Seq::<Item>::empty() =~= seq![Item::EOL(pending)]);
            lemma_followed_by_nothing(parts_of(Item::EOL(pending)));
        } else {
            assert(waited.labels =~= Parts::nothing().labels);
        }
    } else {
        let rest = items.skip(1);
        let here = raw_parts_of(items[0]);
        let later = raw_parts(rest);
        match items[0] {
            ItemView::Label(l) => {
                lemma_attach_keeps_parts(rest, pending.push(l), text);
                let more = Parts { labels: pending.push(l), ..Parts::nothing() };
                assert(more.followed_by(later).statements =~= waited.followed_by(here.followed_by(later)).statements);
                assert(more.followed_by(later).comments =~= waited.followed_by(here.followed_by(later)).comments);
                assert(more.followed_by(later).labels =~= waited.followed_by(here.followed_by(later)).labels);
            },
            ItemView::Comment(c) => {
                lemma_attach_keeps_parts(rest, pending, text);
                let first = Item::Comment(c, place(text, c.span));
                lemma_parts_cons(first, attach(rest, pending, text));
                let got = parts_of(first).followed_by(waited.followed_by(later));
                let want = waited.followed_by(here.followed_by(later));
                assert(got.statements =~= want.statements);
                assert(got.comments =~= want.comments);
                assert(got.labels =~= want.labels);
            },
            ItemView::Instruction(s) => {
                lemma_attach_keeps_parts(rest, Seq::empty(), text);
                let first = Item::Instruction(pending, s, None, place(text, s.span));
                lemma_parts_cons(first, attach(rest, Seq::empty(), text));
                lemma_followed_by_nothing(later);
                assert((Parts { labels: Seq::<Lexeme>::empty(), ..Parts::nothing() })
                    == Parts::nothing());
                let got = parts_of(first).followed_by(later);
                let want = waited.followed_by(here.followed_by(later));
                assert(got.statements =~= want.statements);
                assert(got.comments =~= want.comments);
                assert(got.labels =~= want.labels);
            },
            ItemView::Directive(s) => {
                lemma_attach_keeps_parts(rest, Seq::empty(), text);
                let first = Item::Directive(pending, s, None, place(text, s.span));
                lemma_parts_cons(first, attach(rest, Seq::empty(), text));
                lemma_followed_by_nothing(later);
                assert((Parts { labels: Seq::<Lexeme>::empty(), ..Parts::nothing() })
                    == Parts::nothing());
                let got = parts_of(first).followed_by(later);
                let want = waited.followed_by(here.followed_by(later));
                assert(got.statements =~= want.statements);
                assert(got.comments =~= want.comments);
                assert(got.labels =~= want.labels);
            },
        }
    }
}

/// Comment attachment keeps every statement, comment and label, each kind
/// in its order, where no statement has a comment yet.
pub proof fn lemma_merge_keeps_parts(items: Seq<Item>, text: Seq<u8>)
    requires
        forall|k: int| 0 <= k < items.len() ==> is_fresh(#[trigger] items[k], text),
    ensures
        parts(merge(items)) == parts(items),
    decreases items.len(),
{
    if items.len() == 0 {
    } else if items.len() >= 2 && adopts(items[0], items[1]) {
        let rest = items.skip(2);
        assert forall|k: int| 0 <= k < rest.len() implies is_fresh(#[trigger] rest[k], text) by {
            assert(rest[k] == items[k + 2]);
        }
        lemma_merge_keeps_parts(rest, text);
        let both = adopting(items[0], items[1]);
        lemma_parts_cons(both, merge(rest));
        assert(is_fresh(items[0], text));
        let after = items.skip(1);
        assert(after[0] == items[1]);
        assert(after.skip(1) =~= rest);
        assert(parts(after) == parts_of(items[1]).followed_by(parts(rest)));
        assert(parts(items) == parts_of(items[0]).followed_by(parts(after)));
        lemma_followed_by_associative(parts_of(items[0]), parts_of(items[1]), parts(rest));
        let joined = parts_of(items[0]).followed_by(parts_of(items[1]));
        assert(joined.statements =~= parts_of(both).statements);
        assert(joined.comments =~= parts_of(both).comments);
        assert(joined.labels =~= parts_of(both).labels);
    } else {
        let rest = items.skip(1);
        assert forall|k: int| 0 <= k < rest.len() implies is_fresh(#[trigger] rest[k], text) by {
            assert(rest[k] == items[k + 1]);
        }
        lemma_merge_keeps_parts(rest, text);
        lemma_parts_cons(items[0], merge(rest));
    }
}

/// Nothing is lost and nothing is made up: the statements of the processed
/// program are those of the typed program, and so are its comments,
/// standing alone or adopted, and its labels, each kind in source order.
pub proof fn lemma_transform_keeps_parts(items: Seq<ItemView>, text: Seq<u8>, hybrid: bool)
    ensures
        parts(spec_transform(items, text, hybrid)) == raw_parts(items),
{
    let attached_items = attach(items, Seq::empty(), text);
    lemma_attach_keeps_parts(items, Seq::empty(), text);
    lemma_followed_by_nothing(raw_parts(items));
    assert((Parts { labels: Seq::<Lexeme>::empty(), ..Parts::nothing() }) == Parts::nothing());
    if hybrid {
        assert forall|k: int| 0 <= k < attached_items.len() implies is_fresh(
            #[trigger] attached_items[k],
            text,
        ) by {
            lemma_attach_fresh(items, Seq::empty(), text, k);
        }
        lemma_merge_keeps_parts(attached_items, text);
    }
}

// ---------------------------------------------------------------------------
// The label buffer
// ---------------------------------------------------------------------------

/// `pest::Stack`, a stack that can be rewound; only its plain use as a
/// stack is specified here, through `stack_labels`.
#[verifier::external_type_specification]
#[verifier::external_body]
#[verifier::reject_recursive_types(T)]
pub struct ExStack<T: Clone>(Stack<T>);

/// The labels that a stack holds, the one pushed last at the end.
pub uninterp spec fn stack_labels(stack: Stack<Label>) -> Seq<Lexeme>;

/// `pest::Stack::new` makes a stack that holds nothing.
#[verifier::external_body]
fn stack_new() -> (stack: Stack<Label>)
    ensures
        stack_labels(stack) == Seq::<Lexeme>::empty(),
{
    Stack::new()
}

/// `pest::Stack::is_empty` says whether the stack holds nothing.
#[verifier::external_body]
fn stack_is_empty(stack: &Stack<Label>) -> (empty: bool)
    ensures
        empty == (stack_labels(*stack).len() == 0),
{
    stack.is_empty()
}

/// `pest::Stack::push` puts the label on top of what the stack holds.
#[verifier::external_body]
fn stack_push(stack: &mut Stack<Label>, label: Label)
    ensures
        stack_labels(*final(stack)) == stack_labels(*old(stack)).push(label@),
{
    stack.push(label)
}

/// `pest::Stack::pop` takes the label on top off the stack and hands it
/// out, or hands out nothing where the stack holds nothing.
#[verifier::external_body]
fn stack_pop(stack: &mut Stack<Label>) -> (top: Option<Label>)
    ensures
        match top {
            Some(label) => stack_labels(*old(stack)).len() > 0 && label@ == stack_labels(
                *old(stack),
            ).last() && stack_labels(*final(stack)) == stack_labels(*old(stack)).drop_last(),
            None => stack_labels(*old(stack)).len() == 0 && stack_labels(*final(stack))
                == stack_labels(*old(stack)),
        },
{
    stack.pop()
}

// ---------------------------------------------------------------------------
// The transform
// ---------------------------------------------------------------------------

/// An item with its labels attached, before its place is looked up.
#[derive(Debug)]
enum RawProgramItem {
    Comment(Comment),
    Instruction(Vec<Label>, Instruction, Option<Comment>),
    Directive(Vec<Label>, Directive, Option<Comment>),
    EOL(Vec<Label>),
}

/// The model of an item before its place is looked up.
pub enum Unplaced {
    Comment(Lexeme),
    Instruction(Seq<Lexeme>, InstructionView, Option<Lexeme>),
    Directive(Seq<Lexeme>, DirectiveView, Option<Lexeme>),
    EOL(Seq<Lexeme>),
}

impl Unplaced {
    /// Whether the item, if its place is looked up, begins inside a text of
    /// `length` bytes.
    pub open spec fn begins_within(self, length: int) -> bool {
        match self {
            Unplaced::Comment(c) => c.span.start < length,
            Unplaced::Instruction(_, s, _) => s.span.start < length,
            Unplaced::Directive(_, s, _) => s.span.start < length,
            Unplaced::EOL(_) => true,
        }
    }
}

/// An item at its place in `text`.
pub open spec fn placed(item: Unplaced, text: Seq<u8>) -> Item {
    match item {
        Unplaced::Comment(c) => Item::Comment(c, place(text, c.span)),
        Unplaced::Instruction(labels, s, comment) => Item::Instruction(
            labels,
            s,
            comment,
            place(text, s.span),
        ),
        Unplaced::Directive(labels, s, comment) => Item::Directive(
            labels,
            s,
            comment,
            place(text, s.span),
        ),
        Unplaced::EOL(labels) => Item::EOL(labels),
    }
}

impl View for RawProgramItem {
    type V = Unplaced;

    closed spec fn view(&self) -> Unplaced {
        match self {
            RawProgramItem::Comment(c) => Unplaced::Comment(c@),
            RawProgramItem::Instruction(labels, s, c) => Unplaced::Instruction(
                views(labels@),
                s@,
                comment_view(*c),
            ),
            RawProgramItem::Directive(labels, s, c) => Unplaced::Directive(
                views(labels@),
                s@,
                comment_view(*c),
            ),
            RawProgramItem::EOL(labels) => Unplaced::EOL(views(labels@)),
        }
    }
}

/// The attachment transform of one source text.
pub struct StandardTransform {
    label_buffer: Stack<Label>,
    look_table: LineColumnLookTable,
    hybrid_inline_comment: bool,
}

impl StandardTransform {
    /// Between two runs the label buffer is empty.
    pub closed spec fn wf(&self) -> bool {
        stack_labels(self.label_buffer).len() == 0
    }

    /// The bytes of the source text.
    pub closed spec fn text(&self) -> Seq<u8> {
        self.look_table.text()
    }

    /// Whether same-line comments are adopted.
    pub closed spec fn hybrid(&self) -> bool {
        self.hybrid_inline_comment
    }

    /// A transform for one source text; `hybrid_inline_comment` says
    /// whether statements adopt the comments on their lines.
    pub fn new(hybrid_inline_comment: bool, file_content: &str) -> (transform: Self)
        ensures
            transform.wf(),
            transform.text() == file_content.spec_bytes(),
            transform.hybrid() == hybrid_inline_comment,
    {
        Self {
            label_buffer: stack_new(),
            look_table: LineColumnLookTable::new(file_content),
            hybrid_inline_comment,
        }
    }

    /// Builds the processed program: labels attached, places looked up and,
    /// where the transform was made for it, same-line comments adopted.
    pub fn transform(&mut self, program: crate::ast::raw_ast::Program) -> (processed: Program)
        requires
            old(self).wf(),
            begins_within(program@, old(self).text().len() as int),
        ensures
            final(self).wf(),
            final(self).text() == old(self).text(),
            final(self).hybrid() == old(self).hybrid(),
            processed@ == spec_transform(program@, old(self).text(), old(self).hybrid()),
            program.wf() ==> processed.wf(),
    {
        let ghost text = self.text();
        let ghost all = program@;
        let ghost source_wf = program.wf();
        let mut waiting: Vec<crate::ast::raw_ast::ProgramItem> = reversed(program.items());
        let mut labelled_items: Vec<ProgramItem> = Vec::new();
        proof {
            lemma_views_reverse(program.items@);
            assert(all.skip(0) =~= all);
            assert(stack_labels(self.label_buffer) =~= Seq::empty());
            assert(views(labelled_items@) + attach(all, Seq::empty(), text) =~= attach(
                all,
                Seq::empty(),
                text,
            ));
        }
        while waiting.len() > 0
            invariant
                self.text() == text,
                self.hybrid() == old(self).hybrid(),
                begins_within(all, text.len() as int),
                waiting@.len() <= all.len(),
                views(waiting@) == all.skip(all.len() - waiting@.len()).reverse(),
                views(labelled_items@) + attach(
                    all.skip(all.len() - waiting@.len()),
                    stack_labels(self.label_buffer),
                    text,
                ) == attach(all, Seq::empty(), text),
            decreases waiting@.len(),
        {
            let ghost done = views(labelled_items@);
            let ghost at = all.len() - waiting@.len();
            let ghost tail = all.skip(at);
            let ghost stacked = waiting@;
            let item = waiting.pop().unwrap();
            proof {
                lemma_views_drop_last(stacked);
                assert(tail.reverse().last() == tail[0]);
                assert(tail[0] == all[at]);
                assert(tail.skip(1) =~= all.skip(at + 1));
                assert(tail.reverse().drop_last() =~= tail.skip(1).reverse());
            }
            match self.hybrid_label(item) {
                Some(labelled) => {
                    let found = self.add_line_info(labelled);
                    labelled_items.push(found);
                    proof {
                        if !(item@ is Comment) {
                            assert(stack_labels(self.label_buffer) =~= Seq::empty());
                        }
                        assert(views(labelled_items@) =~= done.push(found@));
                        assert(done + (seq![found@] + attach(
                            all.skip(at + 1),
                            stack_labels(self.label_buffer),
                            text,
                        )) =~= done.push(found@) + attach(
                            all.skip(at + 1),
                            stack_labels(self.label_buffer),
                            text,
                        ));
                    }
                },
                None => {},
            }
        }
        proof {
            assert(all.skip(all.len() as int) =~= Seq::<ItemView>::empty());
        }
        if !stack_is_empty(&self.label_buffer) {
            let ghost done = views(labelled_items@);
            let labels = self.flush_labels();
            let last = self.add_line_info(RawProgramItem::EOL(labels));
            labelled_items.push(last);
            proof {
                assert(views(labelled_items@) =~= done.push(last@));
                assert(done + seq![last@] =~= done.push(last@));
            }
        } else {
            proof {
                assert(views(labelled_items@) + Seq::<Item>::empty() =~= views(labelled_items@));
            }
        }
        proof {
            if source_wf {
                lemma_attach_wf(all, Seq::empty(), text);
                lemma_merge_wf(attach(all, Seq::empty(), text));
            }
        }
        if self.hybrid_inline_comment {
            Program { items: Self::hybrid_comments(labelled_items) }
        } else {
            Program { items: labelled_items }
        }
    }

    /// Takes every label out of the buffer. The stack hands out the label
    /// pushed last first, so what comes out is turned round: the labels
    /// stand in the order in which they were written.
    fn flush_labels(&mut self) -> (labels: Vec<Label>)
        ensures
            views(labels@) == stack_labels(old(self).label_buffer),
            stack_labels(final(self).label_buffer).len() == 0,
            final(self).look_table == old(self).look_table,
            final(self).hybrid_inline_comment == old(self).hybrid_inline_comment,
    {
        let ghost held = stack_labels(self.label_buffer);
        let mut popped: Vec<Label> = Vec::new();
        proof {
            assert(views(popped@) + held.reverse() =~= held.reverse());
        }
        loop
            invariant
                views(popped@) + stack_labels(self.label_buffer).reverse() == held.reverse(),
                self.look_table == old(self).look_table,
                self.hybrid_inline_comment == old(self).hybrid_inline_comment,
            ensures
                stack_labels(self.label_buffer).len() == 0,
                views(popped@) == held.reverse(),
                self.look_table == old(self).look_table,
                self.hybrid_inline_comment == old(self).hybrid_inline_comment,
            decreases stack_labels(self.label_buffer).len(),
        {
            let ghost before = stack_labels(self.label_buffer);
            let ghost taken = views(popped@);
            match stack_pop(&mut self.label_buffer) {
                Some(label) => {
                    popped.push(label);
                    proof {
                        assert(views(popped@) =~= taken.push(label@));
                        assert(before.reverse() =~= seq![before.last()]
                            + before.drop_last().reverse());
                        assert(views(popped@) + stack_labels(self.label_buffer).reverse() =~= taken
                            + before.reverse());
                    }
                },
                None => {
                    proof {
                        assert(before.reverse() =~= Seq::<Lexeme>::empty());
                        assert(taken + Seq::<Lexeme>::empty() =~= taken);
                    }
                    break ;
                },
            }
        }
        let labels = reversed(popped);
        proof {
            lemma_views_reverse(popped@);
            assert(held.reverse().reverse() =~= held);
        }
        labels
    }

    /// Takes one item of the typed program: a label waits in the buffer, a
    /// statement leaves with the labels that waited, a comment passes
    /// through.
    fn hybrid_label(&mut self, program_item: crate::ast::raw_ast::ProgramItem) -> (found: Option<
        RawProgramItem,
    >)
        ensures
            final(self).look_table == old(self).look_table,
            final(self).hybrid_inline_comment == old(self).hybrid_inline_comment,
            match program_item@ {
                ItemView::Label(l) => found is None && stack_labels(final(self).label_buffer)
                    == stack_labels(old(self).label_buffer).push(l),
                ItemView::Comment(c) => found matches Some(item) && item@ == Unplaced::Comment(c)
                    && stack_labels(final(self).label_buffer) == stack_labels(
                    old(self).label_buffer,
                ),
                ItemView::Instruction(s) => found matches Some(item) && item@
                    == Unplaced::Instruction(stack_labels(old(self).label_buffer), s, None)
                    && stack_labels(final(self).label_buffer).len() == 0,
                ItemView::Directive(s) => found matches Some(item) && item@ == Unplaced::Directive(
                    stack_labels(old(self).label_buffer),
                    s,
                    None,
                ) && stack_labels(final(self).label_buffer).len() == 0,
            },
    {
        match program_item {
            crate::ast::raw_ast::ProgramItem::Label(label) => {
                stack_push(&mut self.label_buffer, label);
                None
            },
            crate::ast::raw_ast::ProgramItem::Instruction(instruction) => {
                let labels = self.flush_labels();
                Some(RawProgramItem::Instruction(labels, instruction, None))
            },
            crate::ast::raw_ast::ProgramItem::Directive(directive) => {
                let labels = self.flush_labels();
                Some(RawProgramItem::Directive(labels, directive, None))
            },
            crate::ast::raw_ast::ProgramItem::Comment(comment) => {
                Some(RawProgramItem::Comment(comment))
            },
        }
    }

    /// Looks up the place of an item: a comment stands where it begins, a
    /// statement where its mnemonic begins.
    fn add_line_info(&self, program_item: RawProgramItem) -> (found: ProgramItem)
        requires
            program_item@.begins_within(self.text().len() as int),
        ensures
            found@ == placed(program_item@, self.text()),
    {
        match program_item {
            RawProgramItem::Comment(comment) => {
                let lc = self.look_table.get_line_and_column(&comment.span);
                ProgramItem::Comment(comment, lc)
            },
            RawProgramItem::Instruction(label, instruction, comment) => {
                let lc = self.look_table.get_line_and_column(&instruction.span);
                ProgramItem::Instruction(label, instruction, comment, lc)
            },
            RawProgramItem::Directive(label, directive, comment) => {
                let lc = self.look_table.get_line_and_column(&directive.span);
                ProgramItem::Directive(label, directive, comment, lc)
            },
            RawProgramItem::EOL(label) => ProgramItem::EOL(label),
        }
    }

    /// Lets every statement adopt the comment that follows it on its line.
    fn hybrid_comments(items: Vec<ProgramItem>) -> (merged: Vec<ProgramItem>)
        ensures
            views(merged@) == merge(views(items@)),
    {
        let ghost all = views(items@);
        let mut waiting: Vec<ProgramItem> = reversed(items);
        let mut merged: Vec<ProgramItem> = Vec::new();
        proof {
            lemma_views_reverse(items@);
            assert(all.skip(0) =~= all);
            assert(views(merged@) + merge(all) =~= merge(all));
        }
        while waiting.len() > 0
            invariant
                waiting@.len() <= all.len(),
                views(waiting@) == all.skip(all.len() - waiting@.len()).reverse(),
                views(merged@) + merge(all.skip(all.len() - waiting@.len())) == merge(all),
            decreases waiting@.len(),
        {
            let ghost done = views(merged@);
            let ghost at = all.len() - waiting@.len();
            let ghost tail = all.skip(at);
            let ghost stacked = waiting@;
            let current = waiting.pop().unwrap();
            proof {
                lemma_views_drop_last(stacked);
                assert(tail.reverse().last() == tail[0]);
                assert(tail.skip(1) =~= all.skip(at + 1));
                assert(tail.reverse().drop_last() =~= tail.skip(1).reverse());
                if waiting@.len() > 0 {
                    lemma_views_drop_last(waiting@);
                    assert(all.skip(at + 1).reverse().last() == all.skip(at + 1)[0]);
                    assert(all.skip(at + 1)[0] == tail[1]);
                }
            }
            let adopt: bool = waiting.len() > 0 && Self::takes(
                &current,
                &waiting[waiting.len() - 1],
            );
            let found = if adopt {
                let next = waiting.pop().unwrap();
                proof {
                    assert(tail.skip(2) =~= all.skip(at + 2));
                    assert(all.skip(at + 1).reverse().drop_last() =~= all.skip(at + 2).reverse());
                }
                Self::hybrid_comment(current, next)
            } else {
                current
            };
            merged.push(found);
            proof {
                assert(views(merged@) =~= done.push(found@));
                let rest = merge(all.skip(all.len() - waiting@.len()));
                assert(done + (seq![found@] + rest) =~= done.push(found@) + rest);
            }
        }
        proof {
            assert(all.skip(all.len() as int) =~= Seq::<Item>::empty());
            assert(views(merged@) + Seq::<Item>::empty() =~= views(merged@));
        }
        merged
    }

    /// Whether `current` adopts `next`.
    fn takes(current: &ProgramItem, next: &ProgramItem) -> (r: bool)
        ensures
            r == adopts(current@, next@),
    {
        match next {
            ProgramItem::Comment(_, lc_comment) => match current {
                ProgramItem::Instruction(_, _, _, lc) => lc_comment.at_the_same_line(lc),
                ProgramItem::Directive(_, _, _, lc) => lc_comment.at_the_same_line(lc),
                _ => false,
            },
            _ => false,
        }
    }

    /// Moves the comment `next` into the trailing slot of the statement
    /// `curr`.
    fn hybrid_comment(curr: ProgramItem, next: ProgramItem) -> (found: ProgramItem)
        ensures
            found@ == adopting(curr@, next@),
    {
        match next {
            ProgramItem::Comment(comment, _) => match curr {
                ProgramItem::Instruction(labels, instruction, _, lc) => ProgramItem::Instruction(
                    labels,
                    instruction,
                    Some(comment),
                    lc,
                ),
                ProgramItem::Directive(labels, directive, _, lc) => ProgramItem::Directive(
                    labels,
                    directive,
                    Some(comment),
                    lc,
                ),
                other => other,
            },
            _ => curr,
        }
    }
}

} // verus!
