//! The style linter: a processed program and a style in, every violation
//! out, in source order.

use crate::ast::processed_ast::{all_wf, Item, LineColumn, Program, ProgramItem};
use crate::ast::raw_ast::{Comment, Directive, Instruction, Label, Lexeme, Span};
use crate::model::{or_default, views};
use crate::text::{contains_char, ends_with_char, without_first, without_last};
use regex::Regex;
use vstd::prelude::*;

verus! {

/// The four ways of writing a name.
#[derive(PartialOrd, PartialEq, Eq, Structural, Copy, Clone, Debug)]
pub enum CaseStyle {
    LowerCamelCase,
    UpperCamelCase,
    SnakeCase,
    ScreamingSnakeCase,
}

/// What the linter asks of a program.
#[derive(Copy, Clone, Debug)]
pub struct LintStyle {
    pub colon_after_label: bool,
    pub label_style: CaseStyle,
    pub instruction_style: CaseStyle,
    pub directive_style: CaseStyle,
}

/// One violation: what is wrong with the case of a token (the style asked
/// for and the style found, if any was), what is wrong with the colon of a
/// label, and where the token stands.
#[derive(Debug)]
pub struct Error {
    pub case_style_error: Result<(), (CaseStyle, Option<CaseStyle>)>,
    pub colon_style_error: Result<(), ()>,
    pub span: Span,
}

impl Error {
    pub fn case_style_error(&self) -> (error: &Result<(), (CaseStyle, Option<CaseStyle>)>)
        ensures
            *error == self.case_style_error,
    {
        &self.case_style_error
    }

    pub fn colon_style_error(&self) -> (error: &Result<(), ()>)
        ensures
            *error == self.colon_style_error,
    {
        &self.colon_style_error
    }

    pub fn span(&self) -> (span: &Span)
        ensures
            *span == self.span,
    {
        &self.span
    }
}

/// A style as a configuration file gives it: every setting may be absent.
#[derive(Copy, Clone, Debug)]
pub struct ConfigLintStyle {
    pub colon_after_label: Option<bool>,
    pub label_style: Option<CaseStyle>,
    pub instruction_style: Option<CaseStyle>,
    pub directive_style: Option<CaseStyle>,
}

/// The style that a configuration stands for: each setting that it leaves
/// out is taken from `default`.
pub fn config_lint_style_to_lint_style(default: &LintStyle, config_lint_style: ConfigLintStyle) -> (style:
    LintStyle)
    ensures
        style == (LintStyle {
            colon_after_label: or_default(
                config_lint_style.colon_after_label,
                default.colon_after_label,
            ),
            label_style: or_default(config_lint_style.label_style, default.label_style),
            instruction_style: or_default(
                config_lint_style.instruction_style,
                default.instruction_style,
            ),
            directive_style: or_default(config_lint_style.directive_style, default.directive_style),
        }),
{
    LintStyle {
        colon_after_label: match config_lint_style.colon_after_label {
            Some(value) => value,
            None => default.colon_after_label,
        },
        label_style: match config_lint_style.label_style {
            Some(value) => value,
            None => default.label_style,
        },
        instruction_style: match config_lint_style.instruction_style {
            Some(value) => value,
            None => default.instruction_style,
        },
        directive_style: match config_lint_style.directive_style {
            Some(value) => value,
            None => default.directive_style,
        },
    }
}

impl CaseStyle {
    /// The name of the style.
    pub open spec fn spec_name(self) -> Seq<char> {
        match self {
            CaseStyle::LowerCamelCase => "LowerCamelCase"@,
            CaseStyle::UpperCamelCase => "UpperCamelCase"@,
            CaseStyle::SnakeCase => "SnakeCase"@,
            CaseStyle::ScreamingSnakeCase => "ScreamingSnakeCase"@,
        }
    }

    /// The name of the style.
    pub fn name(&self) -> (name: &'static str)
        ensures
            name@ == self.spec_name(),
    {
        match self {
            CaseStyle::LowerCamelCase => "LowerCamelCase",
            CaseStyle::UpperCamelCase => "UpperCamelCase",
            CaseStyle::SnakeCase => "SnakeCase",
            CaseStyle::ScreamingSnakeCase => "ScreamingSnakeCase",
        }
    }
}

impl Error {
    /// The violation in words: the case comes before the colon.
    pub open spec fn spec_message(self) -> Seq<char> {
        match self.case_style_error {
            Err((expected, Some(found))) => "Invalid case style: found "@ + found.spec_name()
                + ", expected "@ + expected.spec_name(),
            Err((expected, None)) => "Unknown case style, expected "@ + expected.spec_name(),
            Ok(()) => match self.colon_style_error {
                Err(()) => "Invalid colon style"@,
                Ok(()) => "Unknown error"@,
            },
        }
    }

    /// The violation in words.
    pub fn message(&self) -> (text: String)
        ensures
            text@ == self.spec_message(),
    {
        match &self.case_style_error {
            Err((expected, Some(found))) => {
                let mut text = "Invalid case style: found ".to_owned();
                text.append(found.name());
                text.append(", expected ");
                text.append(expected.name());
                text
            },
            Err((expected, None)) => {
                let mut text = "Unknown case style, expected ".to_owned();
                text.append(expected.name());
                text
            },
            Ok(_) => match &self.colon_style_error {
                Err(_) => "Invalid colon style".to_owned(),
                Ok(_) => "Unknown error".to_owned(),
            },
        }
    }
}

// ---------------------------------------------------------------------------
// The shape of a name
// ---------------------------------------------------------------------------

/// Lower-case letters, then words that begin with a capital.
pub const LOWER_CAMEL: &'static str = "^[a-z]+(?:[A-Z][a-z0-9]*)*$";

/// Words that begin with a capital.
pub const UPPER_CAMEL: &'static str = "^[A-Z][a-z0-9]*(?:[A-Z][a-z0-9]*)*$";

/// Lower-case words with `_` between.
pub const SNAKE_CASE: &'static str = "^[a-z]+(?:_[a-z0-9]+)*$";

/// Upper-case words with `_` between.
pub const SCREAMING_SNAKE: &'static str = "^[A-Z0-9]+(?:_[A-Z0-9]+)*$";

/// What matching `text` against the regular expression `pattern` gives:
/// `None` where the pattern does not compile, else whether the text has a
/// match.
pub uninterp spec fn regex_outcome(pattern: Seq<char>, text: Seq<char>) -> Option<bool>;

/// `Regex::new` compiles a pattern or refuses it, and `Regex::is_match`
/// says whether a text has a match of the compiled pattern. Both depend on
/// the pattern and the text alone.
#[verifier::external_body]
fn pattern_matches(pattern: &str, text: &str) -> (outcome: Option<bool>)
    ensures
        outcome == regex_outcome(pattern@, text@),
{
    match Regex::new(pattern) {
        Ok(compiled) => Some(compiled.is_match(text)),
        Err(_) => None,
    }
}

/// Whether `text` has the shape that `pattern` describes.
pub open spec fn has_shape(pattern: Seq<char>, text: Seq<char>) -> bool {
    regex_outcome(pattern, text) == Some(true)
}

/// The style of a name, given which of the four shapes it has: the first
/// that it has, in the order snake, screaming snake, lower camel, upper
/// camel.
pub open spec fn style_of_shapes(
    snake: bool,
    screaming: bool,
    lower_camel: bool,
    upper_camel: bool,
) -> Option<CaseStyle> {
    if snake {
        Some(CaseStyle::SnakeCase)
    } else if screaming {
        Some(CaseStyle::ScreamingSnakeCase)
    } else if lower_camel {
        Some(CaseStyle::LowerCamelCase)
    } else if upper_camel {
        Some(CaseStyle::UpperCamelCase)
    } else {
        None
    }
}

/// The style in which a name is written, if it is written in any.
pub open spec fn identifier_style(text: Seq<char>) -> Option<CaseStyle> {
    style_of_shapes(
        has_shape(SNAKE_CASE@, text),
        has_shape(SCREAMING_SNAKE@, text),
        has_shape(LOWER_CAMEL@, text),
        has_shape(UPPER_CAMEL@, text),
    )
}

/// Whether a name of the style `found` passes where `required` is asked
/// for: the same style passes, and so does a snake-case name without `_`
/// where lower camel case is asked for. What does not pass is reported with
/// the style found.
pub open spec fn verdict(found: Option<CaseStyle>, has_separator: bool, required: CaseStyle)
    -> Result<(), Option<CaseStyle>> {
    match found {
        None => Err(None),
        Some(found) => if found == required {
            Ok(())
        } else if found == CaseStyle::SnakeCase && !has_separator && required
            == CaseStyle::LowerCamelCase {
            Ok(())
        } else {
            Err(Some(found))
        },
    }
}

/// The check of a keyword against the style asked for.
pub open spec fn keyword_check(text: Seq<char>, required: CaseStyle) -> Result<
    (),
    Option<CaseStyle>,
> {
    verdict(identifier_style(text), text.contains('_'), required)
}

/// A label without its colon, if it has one.
pub open spec fn label_name(content: Seq<char>) -> Seq<char> {
    if content.len() > 0 && content.last() == ':' {
        content.drop_last()
    } else {
        content
    }
}

/// The check of a label's colon: it has one exactly where the style asks
/// for one.
pub open spec fn colon_check(content: Seq<char>, colon_after_label: bool) -> Result<(), ()> {
    if (content.len() > 0 && content.last() == ':') == colon_after_label {
        Ok(())
    } else {
        Err(())
    }
}

/// A case error as it is reported: with the style asked for.
pub open spec fn reported(check: Result<(), Option<CaseStyle>>, required: CaseStyle) -> Result<
    (),
    (CaseStyle, Option<CaseStyle>),
> {
    match check {
        Ok(()) => Ok(()),
        Err(found) => Err((required, found)),
    }
}

/// Whether a label is written as the style asks.
pub open spec fn label_conforms(label: Lexeme, style: LintStyle) -> bool {
    keyword_check(label_name(label.content), style.label_style) is Ok && colon_check(
        label.content,
        style.colon_after_label,
    ) is Ok
}

/// The violation of a label.
pub open spec fn label_error(label: Lexeme, style: LintStyle) -> Error {
    Error {
        case_style_error: reported(
            keyword_check(label_name(label.content), style.label_style),
            style.label_style,
        ),
        colon_style_error: colon_check(label.content, style.colon_after_label),
        span: label.span,
    }
}

/// The violations of a run of labels, in order.
pub open spec fn label_errors(labels: Seq<Lexeme>, style: LintStyle) -> Seq<Error>
    decreases labels.len(),
{
    if labels.len() == 0 {
        Seq::empty()
    } else {
        label_errors(labels.drop_last(), style) + (if label_conforms(labels.last(), style) {
            Seq::empty()
        } else {
            seq![label_error(labels.last(), style)]
        })
    }
}

/// The violation of a mnemonic, if it is one: `name` is checked, and the
/// violation stands at `span`.
pub open spec fn keyword_errors(name: Seq<char>, span: Span, required: CaseStyle) -> Seq<Error> {
    match keyword_check(name, required) {
        Ok(()) => Seq::empty(),
        Err(found) => seq![
            Error { case_style_error: Err((required, found)), colon_style_error: Ok(()), span },
        ],
    }
}

/// The violations of one item: those of its labels, then that of its
/// mnemonic. A directive is checked without its leading `.`; comments are
/// not checked.
pub open spec fn item_errors(item: Item, style: LintStyle) -> Seq<Error> {
    match item {
        Item::Comment(..) => Seq::empty(),
        Item::Instruction(labels, s, _, _) => label_errors(labels, style) + keyword_errors(
            s.content,
            s.span,
            style.instruction_style,
        ),
        Item::Directive(labels, s, _, _) => label_errors(labels, style) + keyword_errors(
            s.content.skip(1),
            s.span,
            style.directive_style,
        ),
        Item::EOL(labels) => label_errors(labels, style),
    }
}

/// The violations of a program: those of its items, in order.
pub open spec fn program_errors(items: Seq<Item>, style: LintStyle) -> Seq<Error>
    decreases items.len(),
{
    if items.len() == 0 {
        Seq::empty()
    } else {
        program_errors(items.drop_last(), style) + item_errors(items.last(), style)
    }
}

// ---------------------------------------------------------------------------
// What holds of every check
// ---------------------------------------------------------------------------

/// Whether the mnemonic of an item, if it has one, is written as the style
/// asks.
pub open spec fn mnemonic_conforms(item: Item, style: LintStyle) -> bool {
    match item {
        Item::Instruction(_, s, _, _) => keyword_check(s.content, style.instruction_style) is Ok,
        Item::Directive(_, s, _, _) => keyword_check(s.content.skip(1), style.directive_style)
            is Ok,
        _ => true,
    }
}

/// Whether every token of an item is written as the style asks.
pub open spec fn item_conforms(item: Item, style: LintStyle) -> bool {
    &&& forall|j: int|
        0 <= j < item.labels().len() ==> label_conforms(#[trigger] item.labels()[j], style)
    &&& mnemonic_conforms(item, style)
}

/// The place of the mnemonic of a statement.
pub open spec fn mnemonic_span(item: Item) -> Span {
    match item {
        Item::Instruction(_, s, _, _) => s.span,
        Item::Directive(_, s, _, _) => s.span,
        _ => Span { start: 0, end: 0 },
    }
}

/// Labels that are all written as the style asks give no violation.
pub proof fn lemma_conforming_labels(labels: Seq<Lexeme>, style: LintStyle)
    requires
        forall|j: int| 0 <= j < labels.len() ==> label_conforms(#[trigger] labels[j], style),
    ensures
        label_errors(labels, style).len() == 0,
    decreases labels.len(),
{
    if labels.len() > 0 {
        let before = labels.drop_last();
        assert forall|j: int| 0 <= j < before.len() implies label_conforms(
            #[trigger] before[j],
            style,
        ) by {
            assert(before[j] == labels[j]);
        }
        lemma_conforming_labels(before, style);
        assert(label_conforms(labels[labels.len() - 1], style));
    }
}

/// A label that is not written as the style asks gives a violation at its
/// own span.
pub proof fn lemma_nonconforming_label(labels: Seq<Lexeme>, style: LintStyle, j: int)
    requires
        0 <= j < labels.len(),
        !label_conforms(labels[j], style),
    ensures
        label_errors(labels, style).contains(label_error(labels[j], style)),
        label_error(labels[j], style).span == labels[j].span,
        label_error(labels[j], style).case_style_error is Err || label_error(
            labels[j],
            style,
        ).colon_style_error is Err,
    decreases labels.len(),
{
    let before = labels.drop_last();
    let head = label_errors(before, style);
    let all = label_errors(labels, style);
    if j == labels.len() - 1 {
        assert(all[head.len() as int] == label_error(labels[j], style));
    } else {
        assert(before[j] == labels[j]);
        lemma_nonconforming_label(before, style, j);
        let k = choose|k: int| 0 <= k < head.len() && head[k] == label_error(labels[j], style);
        assert(all[k] == head[k]);
    }
}

/// The violations of an item are among the violations of the program.
pub proof fn lemma_item_errors_reported(items: Seq<Item>, style: LintStyle, i: int, error: Error)
    requires
        0 <= i < items.len(),
        item_errors(items[i], style).contains(error),
    ensures
        program_errors(items, style).contains(error),
    decreases items.len(),
{
    let before = items.drop_last();
    let head = program_errors(before, style);
    let all = program_errors(items, style);
    if i == items.len() - 1 {
        let own = item_errors(items[i], style);
        let k = choose|k: int| 0 <= k < own.len() && own[k] == error;
        assert(all[head.len() + k] == own[k]);
    } else {
        assert(before[i] == items[i]);
        lemma_item_errors_reported(before, style, i, error);
        let k = choose|k: int| 0 <= k < head.len() && head[k] == error;
        assert(all[k] == head[k]);
    }
}

/// A program whose every label and mnemonic is written as the style asks
/// has no violation.
pub proof fn lemma_conforming_program(items: Seq<Item>, style: LintStyle)
    requires
        forall|i: int| 0 <= i < items.len() ==> item_conforms(#[trigger] items[i], style),
    ensures
        program_errors(items, style).len() == 0,
    decreases items.len(),
{
    if items.len() > 0 {
        let before = items.drop_last();
        assert forall|i: int| 0 <= i < before.len() implies item_conforms(
            #[trigger] before[i],
            style,
        ) by {
            assert(before[i] == items[i]);
        }
        lemma_conforming_program(before, style);
        let last = items[items.len() - 1];
        assert(item_conforms(last, style));
        lemma_conforming_labels(last.labels(), style);
    }
}

/// A label that is not written as the style asks has a violation among
/// those of the program, at the label's own span.
pub proof fn lemma_label_violation_reported(items: Seq<Item>, style: LintStyle, i: int, j: int)
    requires
        0 <= i < items.len(),
        0 <= j < items[i].labels().len(),
        !label_conforms(items[i].labels()[j], style),
    ensures
        exists|k: int|
            0 <= k < program_errors(items, style).len() && (#[trigger] program_errors(
                items,
                style,
            )[k]).span == items[i].labels()[j].span,
{
    let labels = items[i].labels();
    let error = label_error(labels[j], style);
    lemma_nonconforming_label(labels, style, j);
    let of_labels = label_errors(labels, style);
    let own = item_errors(items[i], style);
    let k = choose|k: int| 0 <= k < of_labels.len() && of_labels[k] == error;
    assert(own[k] == error);
    lemma_item_errors_reported(items, style, i, error);
    let at = choose|at: int|
        0 <= at < program_errors(items, style).len() && program_errors(items, style)[at] == error;
    assert(program_errors(items, style)[at].span == labels[j].span);
}

/// A mnemonic that is not written as the style asks has a violation among
/// those of the program, at the mnemonic's own span.
pub proof fn lemma_mnemonic_violation_reported(items: Seq<Item>, style: LintStyle, i: int)
    requires
        0 <= i < items.len(),
        !mnemonic_conforms(items[i], style),
    ensures
        exists|k: int|
            0 <= k < program_errors(items, style).len() && (#[trigger] program_errors(
                items,
                style,
            )[k]).span == mnemonic_span(items[i]) && program_errors(
                items,
                style,
            )[k].case_style_error is Err,
{
    let item = items[i];
    let of_labels = label_errors(item.labels(), style);
    let own = item_errors(item, style);
    let error = own[of_labels.len() as int];
    assert(error.span == mnemonic_span(item));
    lemma_item_errors_reported(items, style, i, error);
    let at = choose|at: int|
        0 <= at < program_errors(items, style).len() && program_errors(items, style)[at] == error;
    assert(program_errors(items, style)[at].span == mnemonic_span(item));
}

// ---------------------------------------------------------------------------
// The checks
// ---------------------------------------------------------------------------

/// The style of a name, given which of the four shapes it has.
pub fn pick_style(snake: bool, screaming: bool, lower_camel: bool, upper_camel: bool) -> (style:
    Option<CaseStyle>)
    ensures
        style == style_of_shapes(snake, screaming, lower_camel, upper_camel),
{
    if snake {
        Some(CaseStyle::SnakeCase)
    } else if screaming {
        Some(CaseStyle::ScreamingSnakeCase)
    } else if lower_camel {
        Some(CaseStyle::LowerCamelCase)
    } else if upper_camel {
        Some(CaseStyle::UpperCamelCase)
    } else {
        None
    }
}

/// Whether a name of the style `found` passes where `required` is asked
/// for.
pub fn judge(found: Option<CaseStyle>, has_separator: bool, required: CaseStyle) -> (check: Result<
    (),
    Option<CaseStyle>,
>)
    ensures
        check == verdict(found, has_separator, required),
{
    match found {
        None => Err(None),
        Some(found_style) => {
            if found_style == required {
                Ok(())
            } else if found_style == CaseStyle::SnakeCase && !has_separator && required
                == CaseStyle::LowerCamelCase {
                // a snake-case name without `_` is lower camel case as well
                Ok(())
            } else {
                Err(Some(found_style))
            }
        },
    }
}

/// Checks every token of a program against one style.
pub struct StyleCheckerVisitor {
    pub style: LintStyle,
}

impl StyleCheckerVisitor {
    /// Whether `text` has the shape that `pattern` describes.
    fn matches(pattern: &str, text: &str) -> (r: bool)
        ensures
            r == has_shape(pattern@, text@),
    {
        match pattern_matches(pattern, text) {
            Some(found) => found,
            None => false,
        }
    }

    /// Checks the case and the colon of a label.
    pub fn check_label(&self, label: &str) -> (checks: (Result<(), Option<CaseStyle>>, Result<
        (),
        (),
    >))
        ensures
            checks.0 == keyword_check(label_name(label@), self.style.label_style),
            checks.1 == colon_check(label@, self.style.colon_after_label),
    {
        let has_colon = ends_with_char(label, ':');
        let name = if has_colon {
            without_last(label)
        } else {
            label
        };
        let case_error = Self::check_keyword_style(name, &self.style.label_style);
        let colon_error = if has_colon == self.style.colon_after_label {
            Ok(())
        } else {
            Err(())
        };
        (case_error, colon_error)
    }

    /// Checks the mnemonic of an instruction.
    pub fn check_instruction(&self, instruction: &str) -> (check: Result<(), Option<CaseStyle>>)
        ensures
            check == keyword_check(instruction@, self.style.instruction_style),
    {
        Self::check_keyword_style(instruction, &self.style.instruction_style)
    }

    /// Checks the keyword of a directive, given without its leading `.`.
    pub fn check_directive_style(&self, directive: &str) -> (check: Result<(), Option<CaseStyle>>)
        ensures
            check == keyword_check(directive@, self.style.directive_style),
    {
        Self::check_keyword_style(directive, &self.style.directive_style)
    }

    /// Checks a keyword against the style asked for.
    pub fn check_keyword_style(keyword: &str, case_style: &CaseStyle) -> (check: Result<
        (),
        Option<CaseStyle>,
    >)
        ensures
            check == keyword_check(keyword@, *case_style),
    {
        let found_style = Self::get_identifier_style(keyword);
        judge(found_style, contains_char(keyword, '_'), *case_style)
    }

    /// The style in which a name is written, if it is written in any.
    pub fn get_identifier_style(identifier: &str) -> (style: Option<CaseStyle>)
        ensures
            style == identifier_style(identifier@),
    {
        pick_style(
            Self::matches(SNAKE_CASE, identifier),
            Self::matches(SCREAMING_SNAKE, identifier),
            Self::matches(LOWER_CAMEL, identifier),
            Self::matches(UPPER_CAMEL, identifier),
        )
    }

    /// The violation of a label, from its two checks.
    pub fn label_error_to_error(
        label: &Label,
        expected_case: &CaseStyle,
        case_error: Result<(), Option<CaseStyle>>,
        colon_error: Result<(), ()>,
    ) -> (error: Error)
        ensures
            error == (Error {
                case_style_error: reported(case_error, *expected_case),
                colon_style_error: colon_error,
                span: label@.span,
            }),
    {
        Error {
            case_style_error: match case_error {
                Ok(()) => Ok(()),
                Err(found) => Err((*expected_case, found)),
            },
            colon_style_error: colon_error,
            span: label.span,
        }
    }

    /// The violations of a run of labels, in order.
    pub fn check_label_style(&self, labels: &[Label]) -> (errors: Vec<Error>)
        ensures
            errors@ == label_errors(views(labels@), self.style),
    {
        let ghost all = views(labels@);
        let mut errors: Vec<Error> = Vec::new();
        let mut i: usize = 0;
        proof {
            assert(all.take(0) =~= Seq::<Lexeme>::empty());
        }
        while i < labels.len()
            invariant
                i <= labels@.len(),
                all == views(labels@),
                errors@ == label_errors(all.take(i as int), self.style),
            decreases labels@.len() - i,
        {
            let label = &labels[i];
            let (case_error, colon_error) = self.check_label(label.content().as_str());
            proof {
                let upto = all.take(i + 1);
                assert(upto.drop_last() =~= all.take(i as int));
                assert(upto.last() == label@);
            }
            if case_error.is_err() || colon_error.is_err() {
                let ghost before = errors@;
                errors.push(
                    Self::label_error_to_error(
                        label,
                        &self.style.label_style,
                        case_error,
                        colon_error,
                    ),
                );
                proof {
                    assert(errors@ =~= before + seq![label_error(label@, self.style)]);
                }
            } else {
                proof {
                    assert(errors@ + Seq::<Error>::empty() =~= errors@);
                }
            }
            i += 1;
        }
        proof {
            assert(all.take(labels@.len() as int) =~= all);
        }
        errors
    }

    /// The violation of a mnemonic, if it is one.
    fn keyword_error(check: Result<(), Option<CaseStyle>>, required: CaseStyle, span: Span) -> (errors:
        Vec<Error>)
        ensures
            errors@ == (match check {
                Ok(()) => Seq::<Error>::empty(),
                Err(found) => seq![
                    Error {
                        case_style_error: Err((required, found)),
                        colon_style_error: Ok(()),
                        span,
                    },
                ],
            }),
    {
        let mut errors: Vec<Error> = Vec::new();
        match check {
            Ok(_) => {},
            Err(found) => {
                errors.push(
                    Error {
                        case_style_error: Err((required, found)),
                        colon_style_error: Ok(()),
                        span,
                    },
                );
            },
        }
        errors
    }

    /// A comment is not checked.
    pub fn visit_comment(&self, _comment: &Comment, _location: &LineColumn) -> (errors: Vec<Error>)
        ensures
            errors@.len() == 0,
    {
        Vec::new()
    }

    /// The violations of an instruction: those of its labels, then that of
    /// its mnemonic.
    pub fn visit_instruction(
        &self,
        labels: &[Label],
        instruction: &Instruction,
        comment: &Option<Comment>,
        lc: &LineColumn,
    ) -> (errors: Vec<Error>)
        ensures
            errors@ == label_errors(views(labels@), self.style) + keyword_errors(
                instruction@.content,
                instruction@.span,
                self.style.instruction_style,
            ),
    {
        let mut errors = self.check_label_style(labels);
        let mut of_keyword = Self::keyword_error(
            self.check_instruction(instruction.content().as_str()),
            self.style.instruction_style,
            instruction.span,
        );
        errors.append(&mut of_keyword);
        match comment {
            None => {},
            Some(comment) => {
                let mut of_comment = self.visit_comment(comment, lc);
                let ghost before = errors@;
                errors.append(&mut of_comment);
                proof {
                    assert(errors@ =~= before);
                }
            },
        }
        errors
    }

    /// The violations of a directive: those of its labels, then that of its
    /// keyword without the leading `.`.
    pub fn visit_directive(
        &self,
        labels: &[Label],
        directive: &Directive,
        comment: &Option<Comment>,
        lc: &LineColumn,
    ) -> (errors: Vec<Error>)
        requires
            directive@.content.len() > 0,
        ensures
            errors@ == label_errors(views(labels@), self.style) + keyword_errors(
                directive@.content.skip(1),
                directive@.span,
                self.style.directive_style,
            ),
    {
        let mut errors = self.check_label_style(labels);
        let mut of_keyword = Self::keyword_error(
            self.check_directive_style(without_first(directive.content().as_str())),
            self.style.directive_style,
            directive.span,
        );
        errors.append(&mut of_keyword);
        match comment {
            None => {},
            Some(comment) => {
                let mut of_comment = self.visit_comment(comment, lc);
                let ghost before = errors@;
                errors.append(&mut of_comment);
                proof {
                    assert(errors@ =~= before);
                }
            },
        }
        errors
    }

    /// The violations of the labels at the end of the file.
    pub fn visit_eol(&self, labels: &[Label]) -> (errors: Vec<Error>)
        ensures
            errors@ == label_errors(views(labels@), self.style),
    {
        self.check_label_style(labels)
    }
}

/// The linter of one program.
pub struct Linter {
    program: Program,
    visitor: StyleCheckerVisitor,
}

impl Linter {
    /// The items of the program.
    pub closed spec fn items(&self) -> Seq<Item> {
        self.program@
    }

    /// The style that is asked for.
    pub closed spec fn style(&self) -> LintStyle {
        self.visitor.style
    }

    /// A linter of `program` under `style`.
    pub fn new(style: LintStyle, program: Program) -> (linter: Self)
        ensures
            linter.items() == program@,
            linter.style() == style,
    {
        Self { program, visitor: StyleCheckerVisitor { style } }
    }

    /// Checks the whole program: `Ok` where nothing is wrong, else every
    /// violation, in source order.
    pub fn check(&mut self) -> (found: Result<(), Vec<Error>>)
        requires
            all_wf(old(self).items()),
        ensures
            final(self).items() == old(self).items(),
            final(self).style() == old(self).style(),
            match found {
                Ok(()) => program_errors(old(self).items(), old(self).style()).len() == 0,
                Err(errors) => errors@.len() > 0 && errors@ == program_errors(
                    old(self).items(),
                    old(self).style(),
                ),
            },
    {
        self.accept()
    }

    /// Visits every item once, in order, and gathers what the visits find.
    fn accept(&self) -> (found: Result<(), Vec<Error>>)
        requires
            all_wf(self.items()),
        ensures
            match found {
                Ok(()) => program_errors(self.items(), self.style()).len() == 0,
                Err(errors) => errors@.len() > 0 && errors@ == program_errors(
                    self.items(),
                    self.style(),
                ),
            },
    {
        let ghost items = self.items();
        let mut errors: Vec<Error> = Vec::new();
        let mut i: usize = 0;
        proof {
            assert(items.take(0) =~= Seq::<Item>::empty());
        }
        while i < self.program.items.len()
            invariant
                i <= self.program.items@.len(),
                items == self.items(),
                all_wf(items),
                errors@ == program_errors(items.take(i as int), self.style()),
            decreases self.program.items@.len() - i,
        {
            let line = &self.program.items[i];
            proof {
                let upto = items.take(i + 1);
                assert(upto.drop_last() =~= items.take(i as int));
                assert(upto.last() == line@);
                assert(items[i as int].wf());
            }
            let mut res = match line {
                ProgramItem::Comment(comment, lc) => self.visitor.visit_comment(comment, lc),
                ProgramItem::Instruction(labels, instruction, comment, lc) => {
                    self.visitor.visit_instruction(labels, instruction, comment, lc)
                },
                ProgramItem::Directive(labels, directive, comment, lc) => {
                    self.visitor.visit_directive(labels, directive, comment, lc)
                },
                ProgramItem::EOL(labels) => self.visitor.visit_eol(labels),
            };
            proof {
                assert(res@ =~= item_errors(line@, self.style()));
            }
            errors.append(&mut res);
            i += 1;
        }
        proof {
            assert(items.take(self.program.items@.len() as int) =~= items);
        }
        if errors.is_empty() {
            Ok(())
        } else {
            Err(errors)
        }
    }
}

} // verus!
