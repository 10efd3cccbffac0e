use sitegen::parse::line_end;
use sitegen::parse::lines;
use sitegen::Command;
use sitegen::Ident;
use sitegen::Insert;
use sitegen::Line;
use sitegen::Path;
use sitegen::TemplateError;
use sitegen::Var;

fn s(x: &str) -> String {
    String::from(x)
}

#[test]
fn line_end_recognizes_both_terminators() {
    assert_eq!(line_end("a\nb", 1), Some(1));
    assert_eq!(line_end("a\r\nb", 1), Some(2));
    assert_eq!(line_end("ab", 1), None);
    assert_eq!(line_end("a\rb", 1), None);
    assert_eq!(line_end("a", 1), None);
}

#[test]
fn line_parses_one_line_and_reports_where_it_ended() {
    let (l, end) = sitegen::parse::line(":insert 'x'\n+rest", 0).expect("parse failed");
    assert_eq!(l, Line::Command(Command::Insert(Insert::Path(Path::Path(s("x"))))));
    assert_eq!(end, 11);
    let (l, end) = sitegen::parse::line("+abc", 0).expect("parse failed");
    assert_eq!(l, Line::Raw(s("abc")));
    assert_eq!(end, 4);
}

#[test]
fn unterminated_quotes_are_syntax_errors() {
    assert_eq!(lines(":insert 'abc\n"), Err(TemplateError::SyntaxError));
    assert_eq!(lines(":insert \"abc\n"), Err(TemplateError::SyntaxError));
    assert_eq!(lines(":insert \"abc"), Err(TemplateError::SyntaxError));
}

#[test]
fn insert_needs_whitespace_before_operand() {
    assert_eq!(lines(":insert'x'\n"), Err(TemplateError::SyntaxError));
    assert_eq!(lines(":insert$x\n"), Err(TemplateError::SyntaxError));
}

#[test]
fn tabs_and_extra_spaces_separate_keyword_and_operand() {
    let doc = lines(":insert \t 'x'\n").expect("parse failed");
    assert_eq!(doc, vec![Line::Command(Command::Insert(Insert::Path(Path::Path(s("x")))))]);
}

#[test]
fn empty_identifier_in_variable_path_is_refused() {
    assert_eq!(lines(":insert $\n"), Err(TemplateError::SyntaxError));
    assert_eq!(lines(":insert $a..b\n"), Err(TemplateError::SyntaxError));
    assert_eq!(lines(":insert $a.\n"), Err(TemplateError::SyntaxError));
}

#[test]
fn trailing_text_after_operand_is_refused() {
    assert_eq!(lines(":insert 'a'x\n"), Err(TemplateError::SyntaxError));
    assert_eq!(lines(":insert $a.b c\n"), Err(TemplateError::SyntaxError));
}

#[test]
fn variable_path_with_many_identifiers_parses() {
    let doc = lines(":insert $a.b.c\n").expect("parse failed");
    assert_eq!(
        doc,
        vec![Line::Command(Command::Insert(Insert::Var(Var(vec![
            Ident(s("a")),
            Ident(s("b")),
            Ident(s("c")),
        ]))))],
    );
}

#[test]
fn raw_line_keeps_lone_carriage_return() {
    let doc = lines("+a\rb\n").expect("parse failed");
    assert_eq!(doc, vec![Line::Raw(s("a\rb"))]);
}
