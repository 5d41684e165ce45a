//! The parts of the style linter.

use lc3_toolchain::ast::processed_ast::{LineColumn, Program, ProgramItem};
use lc3_toolchain::ast::raw_ast::{
    Comment, Directive, DirectiveType, Instruction, InstructionType, Label, Span,
};
use lc3_toolchain::lint::{
    config_lint_style_to_lint_style, judge, pick_style, CaseStyle, ConfigLintStyle, Error,
    LintStyle, Linter, StyleCheckerVisitor,
};

const STYLE: LintStyle = LintStyle {
    colon_after_label: true,
    label_style: CaseStyle::SnakeCase,
    instruction_style: CaseStyle::ScreamingSnakeCase,
    directive_style: CaseStyle::UpperCamelCase,
};

const AT: LineColumn = LineColumn { line: 1, column: 1 };

fn label(text: &str, start: usize) -> Label {
    Label { content: text.to_string(), span: Span { start, end: start + text.len() } }
}

#[test]
fn the_style_of_a_name() {
    let style = StyleCheckerVisitor::get_identifier_style;
    assert_eq!(style("loop"), Some(CaseStyle::SnakeCase));
    assert_eq!(style("loop_start2"), Some(CaseStyle::SnakeCase));
    assert_eq!(style("LOOP"), Some(CaseStyle::ScreamingSnakeCase));
    assert_eq!(style("MAIN_FUNCTION0"), Some(CaseStyle::ScreamingSnakeCase));
    assert_eq!(style("R2D2"), Some(CaseStyle::ScreamingSnakeCase));
    assert_eq!(style("loopStart"), Some(CaseStyle::LowerCamelCase));
    assert_eq!(style("aND"), Some(CaseStyle::LowerCamelCase));
    assert_eq!(style("LoopStart"), Some(CaseStyle::UpperCamelCase));
    assert_eq!(style("Loop"), Some(CaseStyle::UpperCamelCase));
    assert_eq!(style(""), None);
    assert_eq!(style("loop_Start"), None);
    assert_eq!(style("_loop"), None);
    assert_eq!(style("9lives"), None);
    assert_eq!(style("loop:"), None);
    assert_eq!(style("lo op"), None);
}

#[test]
fn the_first_shape_wins() {
    assert_eq!(pick_style(true, true, true, true), Some(CaseStyle::SnakeCase));
    assert_eq!(pick_style(false, true, true, true), Some(CaseStyle::ScreamingSnakeCase));
    assert_eq!(pick_style(false, false, true, true), Some(CaseStyle::LowerCamelCase));
    assert_eq!(pick_style(false, false, false, true), Some(CaseStyle::UpperCamelCase));
    assert_eq!(pick_style(false, false, false, false), None);
}

#[test]
fn the_verdict_on_a_style() {
    assert_eq!(judge(None, false, CaseStyle::SnakeCase), Err(None));
    assert_eq!(judge(Some(CaseStyle::SnakeCase), true, CaseStyle::SnakeCase), Ok(()));
    assert_eq!(judge(Some(CaseStyle::SnakeCase), false, CaseStyle::LowerCamelCase), Ok(()));
    assert_eq!(
        judge(Some(CaseStyle::SnakeCase), true, CaseStyle::LowerCamelCase),
        Err(Some(CaseStyle::SnakeCase))
    );
    assert_eq!(
        judge(Some(CaseStyle::LowerCamelCase), false, CaseStyle::SnakeCase),
        Err(Some(CaseStyle::LowerCamelCase))
    );
    assert_eq!(
        judge(Some(CaseStyle::SnakeCase), false, CaseStyle::UpperCamelCase),
        Err(Some(CaseStyle::SnakeCase))
    );
}

#[test]
fn checks_of_keywords_and_labels() {
    let check = StyleCheckerVisitor::check_keyword_style;
    assert_eq!(check("loop", &CaseStyle::LowerCamelCase), Ok(()));
    assert_eq!(check("loop", &CaseStyle::SnakeCase), Ok(()));
    assert_eq!(
        check("loop_start", &CaseStyle::LowerCamelCase),
        Err(Some(CaseStyle::SnakeCase))
    );
    assert_eq!(check("???", &CaseStyle::SnakeCase), Err(None));

    let visitor = StyleCheckerVisitor { style: STYLE };
    assert_eq!(visitor.check_label("loop_start:"), (Ok(()), Ok(())));
    assert_eq!(visitor.check_label("loop_start"), (Ok(()), Err(())));
    assert_eq!(
        visitor.check_label("LoopStart:"),
        (Err(Some(CaseStyle::UpperCamelCase)), Ok(()))
    );
    assert_eq!(visitor.check_label("Loop_start"), (Err(None), Err(())));
    assert_eq!(visitor.check_label(":"), (Err(None), Ok(())));
    assert_eq!(visitor.check_instruction("ADD"), Ok(()));
    assert_eq!(visitor.check_instruction("add"), Err(Some(CaseStyle::SnakeCase)));
    assert_eq!(visitor.check_directive_style("Orig"), Ok(()));
    assert_eq!(
        visitor.check_directive_style("ORIG"),
        Err(Some(CaseStyle::ScreamingSnakeCase))
    );

    let without = StyleCheckerVisitor { style: LintStyle { colon_after_label: false, ..STYLE } };
    assert_eq!(without.check_label("loop_start:"), (Ok(()), Err(())));
    assert_eq!(without.check_label("loop_start"), (Ok(()), Ok(())));
}

#[test]
fn violations_of_labels_in_order() {
    let visitor = StyleCheckerVisitor { style: STYLE };
    let labels = [label("good:", 0), label("Bad:", 6), label("fine:", 11), label("worse", 17)];
    let errors = visitor.check_label_style(&labels);
    assert_eq!(errors.len(), 2);
    assert_eq!(
        errors[0].case_style_error(),
        &Err((CaseStyle::SnakeCase, Some(CaseStyle::UpperCamelCase)))
    );
    assert_eq!(errors[0].colon_style_error(), &Ok(()));
    assert_eq!((*errors[0].span().start(), *errors[0].span().end()), (6, 10));
    assert_eq!(errors[1].case_style_error(), &Ok(()));
    assert_eq!(errors[1].colon_style_error(), &Err(()));
    assert_eq!((*errors[1].span().start(), *errors[1].span().end()), (17, 22));
    assert!(visitor.visit_eol(&labels[..1]).is_empty());
    assert_eq!(visitor.visit_eol(&labels).len(), 2);
}

#[test]
fn visits_of_statements() {
    let visitor = StyleCheckerVisitor { style: STYLE };
    let halt = Instruction {
        instruction_type: InstructionType::Halt,
        content: "halt".to_string(),
        span: Span { start: 4, end: 8 },
    };
    let errors = visitor.visit_instruction(&[label("Up", 0)], &halt, &None, &AT);
    assert_eq!(errors.len(), 2);
    assert_eq!(*errors[0].span().start(), 0);
    assert_eq!(
        errors[1].case_style_error(),
        &Err((CaseStyle::ScreamingSnakeCase, Some(CaseStyle::SnakeCase)))
    );
    assert_eq!(errors[1].colon_style_error(), &Ok(()));
    assert_eq!((*errors[1].span().start(), *errors[1].span().end()), (4, 8));

    let end = Directive {
        directive_type: DirectiveType::END,
        content: ".End".to_string(),
        span: Span { start: 0, end: 4 },
    };
    let note = Comment { content: "; Any_Thing".to_string(), span: Span { start: 5, end: 16 } };
    assert!(visitor.visit_directive(&[], &end, &Some(note.clone()), &AT).is_empty());
    assert!(visitor.visit_comment(&note, &AT).is_empty());
    let end = Directive { content: ".END".to_string(), ..end };
    let errors = visitor.visit_directive(&[], &end, &None, &AT);
    assert_eq!(errors.len(), 1);
    assert_eq!(
        errors[0].case_style_error(),
        &Err((CaseStyle::UpperCamelCase, Some(CaseStyle::ScreamingSnakeCase)))
    );
}

#[test]
fn a_program_without_items_and_one_of_comments() {
    let note = Comment { content: "; x".to_string(), span: Span { start: 0, end: 3 } };
    assert!(Linter::new(STYLE, Program { items: vec![] }).check().is_ok());
    let program = Program { items: vec![ProgramItem::Comment(note, AT)] };
    assert!(Linter::new(STYLE, program).check().is_ok());
}

#[test]
fn violations_in_words() {
    let span = Span { start: 0, end: 1 };
    let wrong = Error {
        case_style_error: Err((CaseStyle::SnakeCase, Some(CaseStyle::UpperCamelCase))),
        colon_style_error: Err(()),
        span,
    };
    assert_eq!(wrong.message(), "Invalid case style: found UpperCamelCase, expected SnakeCase");
    let unknown = Error {
        case_style_error: Err((CaseStyle::ScreamingSnakeCase, None)),
        colon_style_error: Ok(()),
        span,
    };
    assert_eq!(unknown.message(), "Unknown case style, expected ScreamingSnakeCase");
    let colon = Error { case_style_error: Ok(()), colon_style_error: Err(()), span };
    assert_eq!(colon.message(), "Invalid colon style");
    let none = Error { case_style_error: Ok(()), colon_style_error: Ok(()), span };
    assert_eq!(none.message(), "Unknown error");
    assert_eq!(CaseStyle::LowerCamelCase.name(), "LowerCamelCase");
}

#[test]
fn a_lint_configuration_fills_in_what_it_leaves_out() {
    let nothing = ConfigLintStyle {
        colon_after_label: None,
        label_style: None,
        instruction_style: None,
        directive_style: None,
    };
    let same = config_lint_style_to_lint_style(&STYLE, nothing);
    assert_eq!(format!("{:?}", same), format!("{:?}", STYLE));
    let some = ConfigLintStyle {
        colon_after_label: Some(false),
        instruction_style: Some(CaseStyle::LowerCamelCase),
        ..nothing
    };
    let mixed = config_lint_style_to_lint_style(&STYLE, some);
    assert!(!mixed.colon_after_label);
    assert_eq!(mixed.label_style, CaseStyle::SnakeCase);
    assert_eq!(mixed.instruction_style, CaseStyle::LowerCamelCase);
    assert_eq!(mixed.directive_style, CaseStyle::UpperCamelCase);
}
