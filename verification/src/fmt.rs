//! The layout formatter: a processed program and a style in, canonical
//! bytes out.

use crate::ast::processed_ast::{is_comment_text, Item, Program, ProgramItem};
use crate::ast::raw_ast::{
    register_or_immediate, Comment, Directive, DirectiveKind, DirectiveType, Immediate,
    Instruction, InstructionType, Label, Operand, Register,
};
use crate::model::{or_default, views};
use crate::text::{
    blanks, ends_with_char, lemma_trimmed_idempotent, spaces, trim, trimmed, without_first,
    without_last,
};
use either::Either;
use vstd::prelude::*;
use vstd::utf8::encode_utf8;

verus! {

/// How a program is laid out. The indents count columns, the spaces count
/// blank lines.
#[derive(Debug, Clone, Copy)]
pub struct FormatStyle {
    pub indent_directive: u8,
    pub indent_instruction: u8,
    pub indent_label: u8,
    pub indent_min_comment_from_block: u8,
    pub space_block_to_comment: u8,
    pub space_comment_stick_to_body: u8,
    pub space_from_label_block: u8,
    pub space_from_start_end_block: u8,
    pub colon_after_label: bool,
}

impl Default for FormatStyle {
    fn default() -> (style: Self)
        ensures
            style == (FormatStyle {
                indent_directive: 0,
                indent_instruction: 0,
                indent_label: 0,
                indent_min_comment_from_block: 0,
                space_block_to_comment: 0,
                space_comment_stick_to_body: 0,
                space_from_label_block: 0,
                space_from_start_end_block: 0,
                colon_after_label: false,
            }),
    {
        FormatStyle {
            indent_directive: 0,
            indent_instruction: 0,
            indent_label: 0,
            indent_min_comment_from_block: 0,
            space_block_to_comment: 0,
            space_comment_stick_to_body: 0,
            space_from_label_block: 0,
            space_from_start_end_block: 0,
            colon_after_label: false,
        }
    }
}

/// A style as a configuration file gives it: every setting may be absent.
#[derive(Debug, Clone, Copy)]
pub struct ConfigFormatStyle {
    pub indent_directive: Option<u8>,
    pub indent_instruction: Option<u8>,
    pub indent_label: Option<u8>,
    pub indent_min_comment_from_block: Option<u8>,
    pub space_block_to_comment: Option<u8>,
    pub space_comment_stick_to_body: Option<u8>,
    pub space_from_label_block: Option<u8>,
    pub space_from_start_end_block: Option<u8>,
    pub colon_after_label: Option<bool>,
}

/// The style that a configuration stands for: each setting that it leaves
/// out is taken from `default`.
pub fn config_format_style_to_format_style(
    default: &FormatStyle,
    config_format_style: ConfigFormatStyle,
) -> (style: FormatStyle)
    ensures
        style == (FormatStyle {
            indent_directive: or_default(
                config_format_style.indent_directive,
                default.indent_directive,
            ),
            indent_instruction: or_default(
                config_format_style.indent_instruction,
                default.indent_instruction,
            ),
            indent_label: or_default(config_format_style.indent_label, default.indent_label),
            indent_min_comment_from_block: or_default(
                config_format_style.indent_min_comment_from_block,
                default.indent_min_comment_from_block,
            ),
            space_block_to_comment: or_default(
                config_format_style.space_block_to_comment,
                default.space_block_to_comment,
            ),
            space_comment_stick_to_body: or_default(
                config_format_style.space_comment_stick_to_body,
                default.space_comment_stick_to_body,
            ),
            space_from_label_block: or_default(
                config_format_style.space_from_label_block,
                default.space_from_label_block,
            ),
            space_from_start_end_block: or_default(
                config_format_style.space_from_start_end_block,
                default.space_from_start_end_block,
            ),
            colon_after_label: or_default(
                config_format_style.colon_after_label,
                default.colon_after_label,
            ),
        }),
{
    FormatStyle {
        indent_directive: setting_or(config_format_style.indent_directive, default.indent_directive),
        indent_instruction: setting_or(
            config_format_style.indent_instruction,
            default.indent_instruction,
        ),
        indent_label: setting_or(config_format_style.indent_label, default.indent_label),
        indent_min_comment_from_block: setting_or(
            config_format_style.indent_min_comment_from_block,
            default.indent_min_comment_from_block,
        ),
        space_block_to_comment: setting_or(
            config_format_style.space_block_to_comment,
            default.space_block_to_comment,
        ),
        space_comment_stick_to_body: setting_or(
            config_format_style.space_comment_stick_to_body,
            default.space_comment_stick_to_body,
        ),
        space_from_label_block: setting_or(
            config_format_style.space_from_label_block,
            default.space_from_label_block,
        ),
        space_from_start_end_block: setting_or(
            config_format_style.space_from_start_end_block,
            default.space_from_start_end_block,
        ),
        colon_after_label: match config_format_style.colon_after_label {
            Some(value) => value,
            None => default.colon_after_label,
        },
    }
}

fn setting_or(setting: Option<u8>, default: u8) -> (value: u8)
    ensures
        value == or_default(setting, default),
{
    match setting {
        Some(value) => value,
        None => default,
    }
}

// ---------------------------------------------------------------------------
// The text of one item
// ---------------------------------------------------------------------------

/// A label as it is printed: with exactly one colon more where the style
/// asks for a colon and the label has none, with one colon less where the
/// style asks for none and the label has one.
pub open spec fn label_text(colon: bool, content: Seq<char>) -> Seq<char> {
    let has_colon = content.len() > 0 && content.last() == ':';
    if colon {
        if has_colon {
            content
        } else {
            content.push(':')
        }
    } else {
        if has_colon {
            content.drop_last()
        } else {
            content
        }
    }
}

/// A comment as it is printed: the `;`, then what follows it without the
/// white space at its ends.
pub open spec fn comment_text(content: Seq<char>) -> Seq<char> {
    seq![';'] + trimmed(content.skip(1))
}

/// The operands as they are printed: each as written, with `, ` between.
pub open spec fn joined(operands: Seq<Operand>) -> Seq<char>
    decreases operands.len(),
{
    if operands.len() == 0 {
        Seq::empty()
    } else if operands.len() == 1 {
        operands[0].content()
    } else {
        joined(operands.drop_last()) + seq![',', ' '] + operands.last().content()
    }
}

/// A statement as it is printed: the mnemonic as written, then a space and
/// the operands where there is anything to print of them.
pub open spec fn statement_text(content: Seq<char>, operands: Seq<Operand>) -> Seq<char> {
    let list = joined(operands);
    if list.len() == 0 {
        content
    } else {
        content + seq![' '] + list
    }
}

/// What an item gives to print: the label lines, the body line and the
/// trailing comment.
pub struct Display {
    pub labels: Seq<Seq<char>>,
    pub body: Seq<char>,
    pub comment: Option<Seq<char>>,
}

/// The label lines of an item: each label indented and printed.
pub open spec fn label_lines(labels: Seq<crate::ast::raw_ast::Lexeme>, style: FormatStyle) -> Seq<
    Seq<char>,
> {
    Seq::new(
        labels.len(),
        |i: int|
            blanks(style.indent_label as nat) + label_text(
                style.colon_after_label,
                labels[i].content,
            ),
    )
}

/// The trailing comment of a statement as it is printed.
pub open spec fn trailing_text(comment: Option<crate::ast::raw_ast::Lexeme>) -> Option<Seq<char>> {
    match comment {
        Some(c) => Some(comment_text(c.content)),
        None => None,
    }
}

/// The indent of a directive: `.ORIG` and `.END` stand at the margin.
pub open spec fn directive_indent(kind: DirectiveKind, style: FormatStyle) -> nat {
    match kind {
        DirectiveKind::Orig | DirectiveKind::End => 0,
        _ => style.indent_directive as nat,
    }
}

/// What an item gives to print under a style.
pub open spec fn display_of(item: Item, style: FormatStyle) -> Display {
    match item {
        Item::Comment(c, _) => Display {
            labels: Seq::empty(),
            body: comment_text(c.content),
            comment: None,
        },
        Item::Instruction(labels, s, comment, _) => Display {
            labels: label_lines(labels, style),
            body: blanks(style.indent_instruction as nat) + statement_text(s.content, s.operands),
            comment: trailing_text(comment),
        },
        Item::Directive(labels, s, comment, _) => Display {
            labels: label_lines(labels, style),
            body: blanks(directive_indent(s.kind, style)) + statement_text(s.content, s.operands),
            comment: trailing_text(comment),
        },
        Item::EOL(labels) => Display {
            labels: label_lines(labels, style),
            body: Seq::empty(),
            comment: None,
        },
    }
}

// ---------------------------------------------------------------------------
// The space between two items
// ---------------------------------------------------------------------------

/// Whether an item is the `.ORIG` directive.
pub open spec fn is_origin(item: Item) -> bool {
    item matches Item::Directive(_, s, _, _) && s.kind is Orig
}

/// Whether an item is the `.END` directive.
pub open spec fn is_end(item: Item) -> bool {
    item matches Item::Directive(_, s, _, _) && s.kind is End
}

/// The blank lines that each of the four rules asks for between `current`
/// and the item `next` that follows it.
pub open spec fn blank_lines_between(current: Item, next: Item, style: FormatStyle) -> nat {
    let comment_to_body: nat = if current.is_comment() && next.is_statement() {
        style.space_comment_stick_to_body as nat
    } else {
        0
    };
    let block_to_comment: nat = if current.is_statement() && !is_origin(current)
        && next.is_comment() {
        style.space_block_to_comment as nat
    } else {
        0
    };
    let to_label_block: nat = if current.is_statement() && current.labels().len() == 0
        && next.is_statement() && next.labels().len() > 0 {
        style.space_from_label_block as nat
    } else {
        0
    };
    let start_end: nat = if is_origin(current) || is_end(next) {
        style.space_from_start_end_block as nat
    } else {
        0
    };
    comment_to_body + block_to_comment + to_label_block + start_end
}

/// The blank lines after `current`: the sum of what the rules ask for. With
/// nothing after it, only the rule on `.ORIG` can ask for any.
pub open spec fn blank_lines(current: Item, next: Option<Item>, style: FormatStyle) -> nat {
    match next {
        Some(next) => blank_lines_between(current, next, style),
        None => if is_origin(current) {
            style.space_from_start_end_block as nat
        } else {
            0
        },
    }
}

// ---------------------------------------------------------------------------
// The bytes of a program
// ---------------------------------------------------------------------------

/// The width of a line: the number of bytes of its text.
pub open spec fn width(line: Seq<char>) -> nat {
    encode_utf8(line).len()
}

/// The width of the widest body among the first `upto` items.
pub open spec fn widest_body(items: Seq<Item>, style: FormatStyle, upto: int) -> nat
    decreases upto,
{
    if upto <= 0 {
        0
    } else {
        let here = width(display_of(items[upto - 1], style).body);
        let before = widest_body(items, style, upto - 1);
        if here > before {
            here
        } else {
            before
        }
    }
}

/// The column at which every trailing comment of the file begins: the width
/// of the widest body of the file and the least gap of the style.
pub open spec fn comment_column(items: Seq<Item>, style: FormatStyle) -> nat {
    widest_body(items, style, items.len() as int) + style.indent_min_comment_from_block as nat
}

/// `count` times the byte `byte`.
pub open spec fn repeated(byte: u8, count: nat) -> Seq<u8> {
    Seq::new(count, |i: int| byte)
}

/// The label lines as bytes: each line and a line feed.
pub open spec fn label_bytes(labels: Seq<Seq<char>>) -> Seq<u8>
    decreases labels.len(),
{
    if labels.len() == 0 {
        Seq::empty()
    } else {
        label_bytes(labels.drop_last()) + encode_utf8(labels.last()) + repeated(10u8, 1)
    }
}

/// The line that carries the body, without its line feed: the body, padded
/// with spaces to `column`, then the trailing comment.
pub open spec fn body_line(display: Display, column: nat) -> Seq<u8> {
    encode_utf8(display.body) + repeated(32u8, (column - width(display.body)) as nat) + (
    match display.comment {
        Some(c) => encode_utf8(c),
        None => Seq::empty(),
    })
}

/// The item that follows item `i`.
pub open spec fn next_of(items: Seq<Item>, i: int) -> Option<Item> {
    if i + 1 < items.len() {
        Some(items[i + 1])
    } else {
        None
    }
}

/// The bytes of item `i`: its label lines, its body line, and the line feed
/// with the blank lines that follow.
pub open spec fn rendered_item(items: Seq<Item>, style: FormatStyle, i: int) -> Seq<u8> {
    let display = display_of(items[i], style);
    label_bytes(display.labels) + body_line(display, comment_column(items, style)) + repeated(
        10u8,
        blank_lines(items[i], next_of(items, i), style) + 1,
    )
}

/// The bytes of the first `upto` items.
pub open spec fn rendered_upto(items: Seq<Item>, style: FormatStyle, upto: int) -> Seq<u8>
    decreases upto,
{
    if upto <= 0 {
        Seq::empty()
    } else {
        rendered_upto(items, style, upto - 1) + rendered_item(items, style, upto - 1)
    }
}

/// The bytes of a program under a style.
pub open spec fn rendered(items: Seq<Item>, style: FormatStyle) -> Seq<u8> {
    rendered_upto(items, style, items.len() as int)
}


// ---------------------------------------------------------------------------
// Printing one item
// ---------------------------------------------------------------------------

/// The model of an item that may be absent.
pub open spec fn item_view(item: Option<&ProgramItem>) -> Option<Item> {
    match item {
        Some(item) => Some(item@),
        None => None,
    }
}

/// The texts of a list of strings.
pub open spec fn texts(lines: Seq<String>) -> Seq<Seq<char>> {
    views(lines)
}

/// The text of a string that may be absent.
pub open spec fn text_of(line: Option<String>) -> Option<Seq<char>> {
    match line {
        Some(line) => Some(line@),
        None => None,
    }
}

proof fn lemma_joined_two(a: Operand, b: Operand)
    ensures
        joined(seq![a, b]) == a.content() + seq![',', ' '] + b.content(),
{
    let both = seq![a, b];
    assert(both.drop_last() =~= seq![a]);
    assert(joined(seq![a]) == a.content());
}

proof fn lemma_joined_three(a: Operand, b: Operand, c: Operand)
    ensures
        joined(seq![a, b, c]) == a.content() + seq![',', ' '] + b.content() + seq![',', ' ']
            + c.content(),
{
    let all = seq![a, b, c];
    assert(all.drop_last() =~= seq![a, b]);
    lemma_joined_two(a, b);
}

/// `first` and `second` with `, ` between.
fn pair_of(first: &String, second: &String) -> (list: String)
    ensures
        list@ == first@ + seq![',', ' '] + second@,
{
    let mut list = first.clone();
    proof {
        reveal_strlit(", ");
        assert(", "@ =~= seq![',', ' ']);
    }
    list.append(", ");
    list.append(second.as_str());
    list
}

/// `first`, `second` and `third` with `, ` between.
fn triple_of(first: &String, second: &String, third: &String) -> (list: String)
    ensures
        list@ == first@ + seq![',', ' '] + second@ + seq![',', ' '] + third@,
{
    let mut list = pair_of(first, second);
    proof {
        reveal_strlit(", ");
        assert(", "@ =~= seq![',', ' ']);
    }
    list.append(", ");
    list.append(third.as_str());
    list
}

/// `content`, then a space and `operands` where `operands` is not empty.
fn with_operands(content: &String, operands: String) -> (text: String)
    ensures
        text@ == if operands@.len() == 0 {
            content@
        } else {
            content@ + seq![' '] + operands@
        },
{
    if operands.as_str().is_empty() {
        content.clone()
    } else {
        let mut text = content.clone();
        proof {
            reveal_strlit(" ");
            assert(" "@ =~= seq![' ']);
        }
        text.append(" ");
        text.append(operands.as_str());
        text
    }
}

/// Prints an instruction: the mnemonic as written and the operands as
/// written, with `, ` between them.
pub fn print_instruction(instruction: &Instruction) -> (text: String)
    ensures
        text@ == statement_text(instruction@.content, instruction@.operands),
{
    let operands: String = match instruction.instruction_type() {
        InstructionType::Add(register1, register2, register_or_immediate)
        | InstructionType::And(register1, register2, register_or_immediate) => {
            proof {
                lemma_joined_three(
                    Operand::Register(register1@),
                    Operand::Register(register2@),
                    crate::ast::raw_ast::register_or_immediate(*register_or_immediate),
                );
            }
            let third = print_register_or_immediate(register_or_immediate);
            triple_of(register1.content(), register2.content(), &third)
        },
        InstructionType::Not(register1, register2) => {
            proof {
                lemma_joined_two(Operand::Register(register1@), Operand::Register(register2@));
            }
            pair_of(register1.content(), register2.content())
        },
        InstructionType::Ldr(register1, register2, immediate)
        | InstructionType::Str(register1, register2, immediate) => {
            proof {
                lemma_joined_three(
                    Operand::Register(register1@),
                    Operand::Register(register2@),
                    Operand::Immediate(immediate@),
                );
            }
            triple_of(register1.content(), register2.content(), immediate.content())
        },
        InstructionType::Ld(register1, label_ref)
        | InstructionType::Ldi(register1, label_ref)
        | InstructionType::Lea(register1, label_ref)
        | InstructionType::St(register1, label_ref)
        | InstructionType::Sti(register1, label_ref) => {
            proof {
                lemma_joined_two(
                    Operand::Register(register1@),
                    Operand::LabelReference(label_ref@),
                );
            }
            pair_of(register1.content(), label_ref.content())
        },
        InstructionType::Br(_, label_ref) => label_ref.content().clone(),
        InstructionType::Jmp(register) | InstructionType::Jsrr(register) => {
            register.content().clone()
        },
        InstructionType::Jsr(label_ref) => label_ref.content().clone(),
        InstructionType::Nop
        | InstructionType::Ret
        | InstructionType::Halt
        | InstructionType::Puts
        | InstructionType::Getc
        | InstructionType::Out
        | InstructionType::In => String::new(),
        InstructionType::Trap(hex_address) => hex_address.content().clone(),
    };
    with_operands(instruction.content(), operands)
}

/// Prints a comment: the `;`, then the rest without the white space at its
/// ends.
pub fn print_comment(comment: &Comment) -> (text: String)
    requires
        is_comment_text(comment@.content),
    ensures
        text@ == comment_text(comment@.content),
{
    let rest = trim(without_first(comment.content().as_str()));
    let mut text = String::new();
    proof {
        reveal_strlit(";");
        assert(Seq::<char>::empty() + ";"@ =~= seq![';']);
    }
    text.append(";");
    text.append(rest);
    text
}

/// Prints a label with or without its colon, as the style asks.
pub fn print_label(style: &FormatStyle, label: &Label) -> (text: String)
    ensures
        text@ == label_text(style.colon_after_label, label@.content),
{
    let content = label.content().as_str();
    if style.colon_after_label {
        if ends_with_char(content, ':') {
            content.to_owned()
        } else {
            let mut text = content.to_owned();
            proof {
                reveal_strlit(":");
                assert(content@ + ":"@ =~= content@.push(':'));
            }
            text.append(":");
            text
        }
    } else {
        if ends_with_char(content, ':') {
            without_last(content).to_owned()
        } else {
            content.to_owned()
        }
    }
}

/// Prints the third operand of `ADD` and `AND` as written.
pub fn print_register_or_immediate(either: &Either<Register, Immediate>) -> (text: String)
    ensures
        text@ == register_or_immediate(*either).content(),
{
    match either {
        Either::Left(r) => r.content().clone(),
        Either::Right(im) => im.content().clone(),
    }
}

/// Prints a directive: the keyword as written and its operand as written.
pub fn print_directive(directive: &Directive) -> (text: String)
    ensures
        text@ == statement_text(directive@.content, directive@.operands),
{
    let operands: String = match directive.directive_type() {
        DirectiveType::ORIG(address) => address.content().clone(),
        DirectiveType::END => String::new(),
        DirectiveType::BLKW(immediate) | DirectiveType::FILL(immediate) => {
            immediate.content().clone()
        },
        DirectiveType::STRINGZ(string) => string.content().clone(),
    };
    with_operands(directive.content(), operands)
}

/// Appends `indent` spaces to `string`.
pub fn add_indent(string: &mut String, indent: u8)
    ensures
        final(string)@ == old(string)@ + blanks(indent as nat),
{
    let padding = spaces(indent as usize);
    string.append(padding.as_str());
}

/// Prints the labels of an item, one line each.
fn print_labels(style: &FormatStyle, labels: &Vec<Label>) -> (lines: Vec<String>)
    ensures
        texts(lines@) == label_lines(views(labels@), *style),
{
    let mut lines: Vec<String> = Vec::new();
    let mut i: usize = 0;
    while i < labels.len()
        invariant
            i <= labels@.len(),
            lines@.len() == i,
            forall|k: int|
                0 <= k < i ==> (#[trigger] lines@[k])@ == label_lines(views(labels@), *style)[k],
        decreases labels@.len() - i,
    {
        let mut line = String::new();
        add_indent(&mut line, style.indent_label);
        let label = print_label(style, &labels[i]);
        line.append(label.as_str());
        proof {
            assert(Seq::<char>::empty() + blanks(style.indent_label as nat) =~= blanks(
                style.indent_label as nat,
            ));
        }
        lines.push(line);
        i += 1;
    }
    proof {
        assert(texts(lines@) =~= label_lines(views(labels@), *style));
    }
    lines
}

/// Prints the trailing comment of a statement.
fn print_trailing(comment: &Option<Comment>) -> (text: Option<String>)
    requires
        comment matches Some(c) ==> is_comment_text(c@.content),
    ensures
        text_of(text) == trailing_text(crate::ast::processed_ast::comment_view(*comment)),
{
    match comment {
        Some(c) => Some(print_comment(c)),
        None => None,
    }
}

impl ProgramItem {
    /// What the item gives to print: the label lines, the body line and the
    /// trailing comment.
    pub fn formatted_display(&self, style: &FormatStyle) -> (display: (
        Vec<String>,
        String,
        Option<String>,
    ))
        requires
            self@.wf(),
        ensures
            texts(display.0@) == display_of(self@, *style).labels,
            display.1@ == display_of(self@, *style).body,
            text_of(display.2) == display_of(self@, *style).comment,
    {
        match self {
            ProgramItem::Comment(comment, _) => {
                let lines: Vec<String> = Vec::new();
                proof {
                    assert(texts(lines@) =~= Seq::<Seq<char>>::empty());
                }
                (lines, print_comment(comment), None)
            },
            ProgramItem::Instruction(labels, instruction, comment, _) => {
                let lines = print_labels(style, labels);
                let mut body = String::new();
                add_indent(&mut body, style.indent_instruction);
                let text = print_instruction(instruction);
                body.append(text.as_str());
                proof {
                    assert(Seq::<char>::empty() + blanks(style.indent_instruction as nat)
                        =~= blanks(style.indent_instruction as nat));
                }
                (lines, body, print_trailing(comment))
            },
            ProgramItem::Directive(labels, directive, comment, _) => {
                let lines = print_labels(style, labels);
                let at_margin = matches!(directive.directive_type(), DirectiveType::END)
                    || matches!(directive.directive_type(), DirectiveType::ORIG(..));
                let indent: u8 = if at_margin {
                    0
                } else {
                    style.indent_directive
                };
                let mut body = String::new();
                add_indent(&mut body, indent);
                let text = print_directive(directive);
                body.append(text.as_str());
                proof {
                    assert(Seq::<char>::empty() + blanks(indent as nat) =~= blanks(indent as nat));
                }
                (lines, body, print_trailing(comment))
            },
            ProgramItem::EOL(labels) => {
                let lines = print_labels(style, labels);
                (lines, String::new(), None)
            },
        }
    }
}

// ---------------------------------------------------------------------------
// The formatter
// ---------------------------------------------------------------------------

/// Writes programs into a buffer under one style.
pub struct Formatter<'a> {
    style: &'a FormatStyle,
    buffer: Vec<u8>,
}

/// One item ready to be written.
struct Line {
    labels: Vec<String>,
    body: String,
    comment: Option<String>,
    newlines: usize,
}

/// Whether an item is the `.ORIG` directive.
fn at_origin(item: &ProgramItem) -> (r: bool)
    ensures
        r == is_origin(item@),
{
    match item {
        ProgramItem::Directive(_, directive, _, _) => matches!(
            directive.directive_type(),
            DirectiveType::ORIG(..)
        ),
        _ => false,
    }
}

/// Whether an item is the `.END` directive.
fn at_end(item: &ProgramItem) -> (r: bool)
    ensures
        r == is_end(item@),
{
    match item {
        ProgramItem::Directive(_, directive, _, _) => matches!(
            directive.directive_type(),
            DirectiveType::END
        ),
        _ => false,
    }
}

/// Whether an item is a statement, and whether it has labels.
fn statement_labels(item: &ProgramItem) -> (r: (bool, bool))
    ensures
        r.0 == item@.is_statement(),
        r.1 == (item@.labels().len() > 0),
{
    match item {
        ProgramItem::Instruction(labels, ..) => (true, labels.len() > 0),
        ProgramItem::Directive(labels, ..) => (true, labels.len() > 0),
        ProgramItem::EOL(labels) => (false, labels.len() > 0),
        ProgramItem::Comment(..) => (false, false),
    }
}

impl<'a> Formatter<'a> {
    /// The style that the formatter writes under.
    pub closed spec fn style(&self) -> FormatStyle {
        *self.style
    }

    /// The bytes written so far.
    pub closed spec fn bytes(&self) -> Seq<u8> {
        self.buffer@
    }

    /// A formatter with an empty buffer.
    pub fn new(style: &'a FormatStyle) -> (formatter: Self)
        ensures
            formatter.style() == *style,
            formatter.bytes() == Seq::<u8>::empty(),
    {
        Self { style, buffer: Vec::new() }
    }

    /// The bytes written so far.
    pub fn contents(&self) -> (contents: &Vec<u8>)
        ensures
            contents@ == self.bytes(),
    {
        &self.buffer
    }

    /// Writes a program after what the buffer holds already.
    ///
    /// Every item is printed by itself; the trailing comments of the whole
    /// program begin at one column; between two items stand the blank lines
    /// that the style asks for.
    pub fn format(&mut self, program: Program)
        requires
            program.wf(),
        ensures
            final(self).style() == old(self).style(),
            final(self).bytes() == old(self).bytes() + rendered(program@, old(self).style()),
    {
        let ghost items = program@;
        let ghost style = self.style();
        let count: usize = program.items.len();
        let mut lines: Vec<Line> = Vec::new();
        let mut widest: usize = 0;
        let mut index: usize = 0;
        while index < count
            invariant
                index <= count,
                count == program.items@.len(),
                items == program@,
                program.wf(),
                style == self.style(),
                lines@.len() == index,
                widest == widest_body(items, style, index as int),
                forall|k: int|
                    0 <= k < index ==> {
                        let line = #[trigger] lines@[k];
                        let display = display_of(items[k], style);
                        &&& texts(line.labels@) == display.labels
                        &&& line.body@ == display.body
                        &&& text_of(line.comment) == display.comment
                        &&& line.newlines == blank_lines(items[k], next_of(items, k), style) + 1
                    },
            decreases count - index,
        {
            let line = &program.items[index];
            proof {
                assert(items[index as int] == line@);
                assert(items[index as int].wf());
            }
            let (labels, body, comment) = line.formatted_display(self.style);
            let next: Option<&ProgramItem> = if index + 1 < count {
                Some(&program.items[index + 1])
            } else {
                None
            };
            let newlines = self.control_padding(line, next) + 1;
            let body_width: usize = byte_width(body.as_str());
            if body_width > widest {
                widest = body_width;
            }
            lines.push(Line { labels, body, comment, newlines });
            index += 1;
        }
        let gap: usize = self.style.indent_min_comment_from_block as usize;
        let ghost start = self.buffer@;
        let mut written: usize = 0;
        proof {
            assert(start + rendered_upto(items, style, 0) =~= start);
        }
        while written < count
            invariant
                written <= count,
                count == items.len(),
                lines@.len() == count,
                style == self.style(),
                gap == style.indent_min_comment_from_block,
                widest == widest_body(items, style, count as int),
                self.buffer@ == start + rendered_upto(items, style, written as int),
                forall|k: int|
                    0 <= k < count ==> {
                        let line = #[trigger] lines@[k];
                        let display = display_of(items[k], style);
                        &&& texts(line.labels@) == display.labels
                        &&& line.body@ == display.body
                        &&& text_of(line.comment) == display.comment
                        &&& line.newlines == blank_lines(items[k], next_of(items, k), style) + 1
                    },
            decreases count - written,
        {
            let line = &lines[written];
            let ghost display = display_of(items[written as int], style);
            let ghost before = self.buffer@;
            proof {
                lemma_widest_body(items, style, count as int, written as int);
            }
            self.add_lines(&line.labels);
            append_text(&mut self.buffer, line.body.as_str());
            self.add_indent(widest - byte_width(line.body.as_str()));
            self.add_indent(gap);
            match &line.comment {
                None => {},
                Some(comment) => {
                    append_text(&mut self.buffer, comment.as_str());
                },
            }
            self.add_newline(line.newlines);
            proof {
                let column = comment_column(items, style);
                let pad = (column - width(display.body)) as nat;
                assert(repeated(32u8, (widest - width(display.body)) as nat) + repeated(
                    32u8,
                    gap as nat,
                ) =~= repeated(32u8, pad));
                assert(self.buffer@ =~= before + rendered_item(items, style, written as int));
                assert(start + rendered_upto(items, style, written as int) + rendered_item(
                    items,
                    style,
                    written as int,
                ) =~= start + rendered_upto(items, style, written + 1));
            }
            written += 1;
        }
    }

    /// Writes the label lines of an item, each with its line feed.
    fn add_lines(&mut self, labels: &Vec<String>)
        ensures
            final(self).style() == old(self).style(),
            final(self).buffer@ == old(self).buffer@ + label_bytes(texts(labels@)),
    {
        let ghost start = self.buffer@;
        let ghost all = texts(labels@);
        let mut i: usize = 0;
        proof {
            assert(all.take(0) =~= Seq::<Seq<char>>::empty());
            assert(start + label_bytes(all.take(0)) =~= start);
        }
        while i < labels.len()
            invariant
                i <= labels@.len(),
                all == texts(labels@),
                self.style() == old(self).style(),
                self.buffer@ == start + label_bytes(all.take(i as int)),
            decreases labels@.len() - i,
        {
            let ghost before = self.buffer@;
            append_text(&mut self.buffer, labels[i].as_str());
            self.buffer.push(10u8);
            proof {
                let upto = all.take(i + 1);
                assert(upto.drop_last() =~= all.take(i as int));
                assert(upto.last() == labels@[i as int]@);
                assert(self.buffer@ =~= before + encode_utf8(upto.last()) + repeated(10u8, 1));
                assert(start + label_bytes(all.take(i as int)) + encode_utf8(upto.last())
                    + repeated(10u8, 1) =~= start + label_bytes(upto));
            }
            i += 1;
        }
        proof {
            assert(all.take(labels@.len() as int) =~= all);
        }
    }

    /// Writes `lines` line feeds.
    fn add_newline(&mut self, lines: usize)
        ensures
            final(self).style() == old(self).style(),
            final(self).buffer@ == old(self).buffer@ + repeated(10u8, lines as nat),
    {
        let ghost start = self.buffer@;
        let mut i: usize = 0;
        proof {
            assert(start + repeated(10u8, 0) =~= start);
        }
        while i < lines
            invariant
                i <= lines,
                self.style() == old(self).style(),
                self.buffer@ == start + repeated(10u8, i as nat),
            decreases lines - i,
        {
            self.buffer.push(10u8);
            proof {
                assert(start + repeated(10u8, i as nat) + seq![10u8] =~= start + repeated(
                    10u8,
                    (i + 1) as nat,
                ));
                assert(self.buffer@ =~= start + repeated(10u8, i as nat) + seq![10u8]);
            }
            i += 1;
        }
    }

    /// Writes `indent` spaces.
    fn add_indent(&mut self, indent: usize)
        ensures
            final(self).style() == old(self).style(),
            final(self).buffer@ == old(self).buffer@ + repeated(32u8, indent as nat),
    {
        let ghost start = self.buffer@;
        let mut i: usize = 0;
        proof {
            assert(start + repeated(32u8, 0) =~= start);
        }
        while i < indent
            invariant
                i <= indent,
                self.style() == old(self).style(),
                self.buffer@ == start + repeated(32u8, i as nat),
            decreases indent - i,
        {
            self.buffer.push(32u8);
            proof {
                assert(start + repeated(32u8, i as nat) + seq![32u8] =~= start + repeated(
                    32u8,
                    (i + 1) as nat,
                ));
                assert(self.buffer@ =~= start + repeated(32u8, i as nat) + seq![32u8]);
            }
            i += 1;
        }
    }

    /// The blank lines after `current`, given the item that follows it.
    ///
    /// Four rules are asked one after the other, and what they ask for is
    /// added up: a comment before a statement; a statement other than
    /// `.ORIG` before a comment; a statement without labels before one with
    /// labels; `.ORIG` before anything, or anything before `.END`.
    pub fn control_padding(&self, current: &ProgramItem, next: Option<&ProgramItem>) -> (paddings:
        usize)
        ensures
            paddings == blank_lines(current@, item_view(next), self.style()),
            paddings <= 4 * 255,
    {
        let mut paddings: usize = 0;
        let (current_is_statement, current_has_labels) = statement_labels(current);
        let current_is_origin = at_origin(current);

        // a comment that stands before a statement
        if current.is_comment() {
            match next {
                Some(next) => {
                    if next.is_directive() || next.is_instruction() {
                        paddings += self.style.space_comment_stick_to_body as usize;
                    }
                },
                None => {},
            }
        }
        // a statement that stands before a comment; `.ORIG` has a rule of
        // its own
        if current_is_statement && !current_is_origin {
            match next {
                Some(next) => {
                    if next.is_comment() {
                        paddings += self.style.space_block_to_comment as usize;
                    }
                },
                None => {},
            }
        }
        // a statement without labels before one with labels
        if current_is_statement && !current_has_labels {
            match next {
                Some(next) => {
                    let (next_is_statement, next_has_labels) = statement_labels(next);
                    if next_is_statement && next_has_labels {
                        paddings += self.style.space_from_label_block as usize;
                    }
                },
                None => {},
            }
        }
        // after `.ORIG` and before `.END`
        let before_end: bool = match next {
            Some(next) => at_end(next),
            None => false,
        };
        if current_is_origin || before_end {
            paddings += self.style.space_from_start_end_block as usize;
        }
        paddings
    }
}

/// The number of bytes of `text`.
fn byte_width(text: &str) -> (count: usize)
    ensures
        count == width(text@),
{
    text.as_bytes().len()
}

/// Appends the bytes of `text` to `buffer`.
fn append_text(buffer: &mut Vec<u8>, text: &str)
    ensures
        final(buffer)@ == old(buffer)@ + encode_utf8(text@),
{
    let bytes = text.as_bytes();
    let ghost start = buffer@;
    let mut i: usize = 0;
    proof {
        assert(start + bytes@.take(0) =~= start);
    }
    while i < bytes.len()
        invariant
            i <= bytes@.len(),
            bytes@ == encode_utf8(text@),
            buffer@ == start + bytes@.take(i as int),
        decreases bytes@.len() - i,
    {
        buffer.push(bytes[i]);
        proof {
            assert(start + bytes@.take(i as int) + seq![bytes@[i as int]] =~= start + bytes@.take(
                i + 1,
            ));
            assert(buffer@ =~= start + bytes@.take(i as int) + seq![bytes@[i as int]]);
        }
        i += 1;
    }
    proof {
        assert(bytes@.take(bytes@.len() as int) =~= bytes@);
    }
}

/// No body among the first `upto` items is wider than the widest.
pub proof fn lemma_widest_body(items: Seq<Item>, style: FormatStyle, upto: int, i: int)
    requires
        0 <= i < upto,
    ensures
        width(display_of(items[i], style).body) <= widest_body(items, style, upto),
    decreases upto,
{
    if i < upto - 1 {
        lemma_widest_body(items, style, upto - 1, i);
    }
}


// ---------------------------------------------------------------------------
// What holds of every formatted program
// ---------------------------------------------------------------------------

/// In the line of every item the body comes first, then spaces up to one
/// column, the same for the whole program; a trailing comment begins at
/// that column. The column is the width of the widest body of
/// the program and the least gap of the style.
pub proof fn lemma_comment_column(items: Seq<Item>, style: FormatStyle, i: int)
    requires
        0 <= i < items.len(),
    ensures
        ({
            let display = display_of(items[i], style);
            let column = comment_column(items, style) as int;
            let line = body_line(display, column as nat);
            &&& column == widest_body(items, style, items.len() as int)
                + style.indent_min_comment_from_block
            &&& width(display.body) <= column <= line.len()
            &&& line.subrange(0, width(display.body) as int) == encode_utf8(display.body)
            &&& forall|k: int| width(display.body) <= k < column ==> line[k] == 32u8
            &&& display.comment matches Some(comment) ==> line.subrange(column, line.len() as int)
                == encode_utf8(comment)
            &&& display.comment is None ==> line.len() == column
        }),
{
    lemma_widest_body(items, style, items.len() as int, i);
    let display = display_of(items[i], style);
    let column = comment_column(items, style) as int;
    let line = body_line(display, column as nat);
    let body = encode_utf8(display.body);
    let pad = repeated(32u8, (column - width(display.body)) as nat);
    assert(line.subrange(0, width(display.body) as int) =~= body);
    assert forall|k: int| width(display.body) <= k < column implies line[k] == 32u8 by {
        assert(line[k] == pad[k - body.len()]);
    }
    match display.comment {
        Some(comment) => {
            assert(line.subrange(column, line.len() as int) =~= encode_utf8(comment));
        },
        None => {},
    }
}

/// Printing a printed label again changes nothing, unless the style asks
/// for no colon and the label ends with two.
pub proof fn lemma_label_text_idempotent(colon: bool, content: Seq<char>)
    requires
        colon || !(content.len() >= 2 && content[content.len() - 1] == ':' && content[content.len()
            - 2] == ':'),
    ensures
        label_text(colon, label_text(colon, content)) == label_text(colon, content),
{
    let once = label_text(colon, content);
    if colon {
        assert(once.len() > 0 && once.last() == ':');
    } else {
        if content.len() > 0 && content.last() == ':' {
            assert(once == content.drop_last());
            if once.len() > 0 {
                assert(once.last() == content[content.len() - 2]);
            }
        }
    }
}

/// Printing a printed comment again changes nothing.
pub proof fn lemma_comment_text_idempotent(content: Seq<char>)
    ensures
        comment_text(comment_text(content)) == comment_text(content),
        is_comment_text(comment_text(content)),
{
    let rest = trimmed(content.skip(1));
    let once = comment_text(content);
    assert(once.skip(1) =~= rest);
    lemma_trimmed_idempotent(content.skip(1));
}


/// A label with its printed text in place of its own.
pub open spec fn printed_label(label: crate::ast::raw_ast::Lexeme, style: FormatStyle)
    -> crate::ast::raw_ast::Lexeme {
    crate::ast::raw_ast::Lexeme {
        content: label_text(style.colon_after_label, label.content),
        span: label.span,
    }
}

/// The labels with their printed texts in place of their own.
pub open spec fn printed_labels(labels: Seq<crate::ast::raw_ast::Lexeme>, style: FormatStyle)
    -> Seq<crate::ast::raw_ast::Lexeme> {
    Seq::new(labels.len(), |i: int| printed_label(labels[i], style))
}

/// A comment with its printed text in place of its own.
pub open spec fn printed_comment(comment: crate::ast::raw_ast::Lexeme)
    -> crate::ast::raw_ast::Lexeme {
    crate::ast::raw_ast::Lexeme { content: comment_text(comment.content), span: comment.span }
}

/// An item with the printed text of every label and comment in place of
/// the text as written: the item that the printed lines spell.
pub open spec fn printed(item: Item, style: FormatStyle) -> Item {
    match item {
        Item::Comment(c, at) => Item::Comment(printed_comment(c), at),
        Item::Instruction(labels, s, comment, at) => Item::Instruction(
            printed_labels(labels, style),
            s,
            match comment {
                Some(c) => Some(printed_comment(c)),
                None => None,
            },
            at,
        ),
        Item::Directive(labels, s, comment, at) => Item::Directive(
            printed_labels(labels, style),
            s,
            match comment {
                Some(c) => Some(printed_comment(c)),
                None => None,
            },
            at,
        ),
        Item::EOL(labels) => Item::EOL(printed_labels(labels, style)),
    }
}

/// A program with every item replaced by the item that its printed lines
/// spell.
pub open spec fn printed_program(items: Seq<Item>, style: FormatStyle) -> Seq<Item> {
    Seq::new(items.len(), |i: int| printed(items[i], style))
}

/// Whether no label of an item ends with two colons.
pub open spec fn single_colons(item: Item) -> bool {
    forall|j: int|
        0 <= j < item.labels().len() ==> {
            let content = (#[trigger] item.labels()[j]).content;
            !(content.len() >= 2 && content[content.len() - 1] == ':' && content[content.len() - 2]
                == ':')
        }
}

proof fn lemma_printed_display(item: Item, style: FormatStyle)
    requires
        style.colon_after_label || single_colons(item),
    ensures
        display_of(printed(item, style), style) == display_of(item, style),
        printed(item, style).is_comment() == item.is_comment(),
        printed(item, style).is_statement() == item.is_statement(),
        printed(item, style).labels().len() == item.labels().len(),
        is_origin(printed(item, style)) == is_origin(item),
        is_end(printed(item, style)) == is_end(item),
{
    let labels = item.labels();
    let again = printed_labels(labels, style);
    assert(label_lines(again, style) =~= label_lines(labels, style)) by {
        assert forall|j: int| 0 <= j < labels.len() implies label_lines(again, style)[j]
            == label_lines(labels, style)[j] by {
            assert(again[j] == printed_label(labels[j], style));
            let content = labels[j].content;
            lemma_label_text_idempotent(style.colon_after_label, content);
        }
    }
    match item {
        Item::Comment(c, _) => {
            lemma_comment_text_idempotent(c.content);
        },
        Item::Instruction(_, _, Some(c), _) => {
            lemma_comment_text_idempotent(c.content);
        },
        Item::Directive(_, _, Some(c), _) => {
            lemma_comment_text_idempotent(c.content);
        },
        _ => {},
    }
}

proof fn lemma_printed_widest(items: Seq<Item>, style: FormatStyle, upto: int)
    requires
        0 <= upto <= items.len(),
        forall|i: int|
            0 <= i < items.len() ==> style.colon_after_label || single_colons(#[trigger] items[i]),
    ensures
        widest_body(printed_program(items, style), style, upto) == widest_body(items, style, upto),
    decreases upto,
{
    if upto > 0 {
        lemma_printed_widest(items, style, upto - 1);
        assert(style.colon_after_label || single_colons(items[upto - 1]));
        lemma_printed_display(items[upto - 1], style);
    }
}

proof fn lemma_printed_rendered(items: Seq<Item>, style: FormatStyle, upto: int)
    requires
        0 <= upto <= items.len(),
        forall|i: int|
            0 <= i < items.len() ==> style.colon_after_label || single_colons(#[trigger] items[i]),
    ensures
        rendered_upto(printed_program(items, style), style, upto) == rendered_upto(
            items,
            style,
            upto,
        ),
    decreases upto,
{
    if upto > 0 {
        let again = printed_program(items, style);
        let i = upto - 1;
        lemma_printed_rendered(items, style, i);
        lemma_printed_widest(items, style, items.len() as int);
        assert(style.colon_after_label || single_colons(items[i]));
        lemma_printed_display(items[i], style);
        if i + 1 < items.len() {
            assert(style.colon_after_label || single_colons(items[i + 1]));
            lemma_printed_display(items[i + 1], style);
        }
        assert(blank_lines(again[i], next_of(again, i), style) == blank_lines(
            items[i],
            next_of(items, i),
            style,
        ));
        assert(rendered_item(again, style, i) == rendered_item(items, style, i));
    }
}

/// A program whose labels and comments already have their printed text is
/// written as the program itself is.
/// Only a label that ends with two colons, under a style without colons,
/// is printed anew: one colon goes each time.
pub proof fn lemma_printed_program_rendered(items: Seq<Item>, style: FormatStyle)
    requires
        forall|i: int|
            0 <= i < items.len() ==> style.colon_after_label || single_colons(#[trigger] items[i]),
    ensures
        rendered(printed_program(items, style), style) == rendered(items, style),
{
    lemma_printed_rendered(items, style, items.len() as int);
}

} // verus!
