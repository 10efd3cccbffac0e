use sitegen::eval::apply_template;
use sitegen::eval::evaluate;
use sitegen::eval::insert_paths;
use sitegen::eval::Context;
use sitegen::lex::escape;
use sitegen::paths::path_for;
use sitegen::paths::resolve_path;
use sitegen::print::print_lines;
use sitegen::Command;
use sitegen::Ident;
use sitegen::Insert;
use sitegen::Line;
use sitegen::Path;
use sitegen::TemplateError;
use sitegen::Var;

fn s(x: &str) -> String {
    String::from(x)
}

fn context(content: &str, title: &str) -> Context {
    Context {
        template_path: s("templates/t.tpl"),
        source_file_path: s("pages/page.md"),
        source_file: s(content),
        source_title: s(title),
    }
}

#[test]
fn escape_decodes_each_code() {
    assert_eq!(escape('n'), Ok('\n'));
    assert_eq!(escape('t'), Ok('\t'));
    assert_eq!(escape('r'), Ok('\r'));
    assert_eq!(escape('\\'), Ok('\\'));
    assert_eq!(escape('\''), Ok('\''));
    assert_eq!(escape('"'), Ok('"'));
    assert_eq!(escape('q'), Err(TemplateError::InvalidEscape));
    assert_eq!(escape('0'), Err(TemplateError::InvalidEscape));
}

#[test]
fn literal_line_renders_text_and_newline() {
    let doc = sitegen::parse::lines("+hello world\n").expect("parse failed");
    assert_eq!(doc, vec![Line::Raw(s("hello world"))]);
    let out = apply_template(&doc, &context("", ""), &vec![]).expect("render failed");
    assert_eq!(out, "hello world\n");
}

#[test]
fn title_insert_scenario() {
    let doc = sitegen::parse::lines("+hello\n:insert $self.title\n").expect("parse failed");
    let paths = insert_paths(&doc);
    assert_eq!(paths, Vec::<String>::new());
    let out = apply_template(&doc, &context("", "Example"), &vec![]).expect("render failed");
    assert_eq!(out, "hello\nExample\n");
}

#[test]
fn content_insert_scenario() {
    let doc = sitegen::parse::lines(":insert $self.content\n").expect("parse failed");
    let out = apply_template(&doc, &context("BODY", "t"), &vec![]).expect("render failed");
    assert_eq!(out, "BODY\n");
}

#[test]
fn path_insert_scenario() {
    let doc = sitegen::parse::lines(":insert \"nav.html\"\n").expect("parse failed");
    let paths = insert_paths(&doc);
    assert_eq!(paths, vec![s("nav.html")]);
    let resolved = resolve_path("templates/t.tpl", &paths[0]);
    assert_eq!(resolved, "templates/nav.html");
    let out = apply_template(&doc, &context("", ""), &vec![s("NAV")]).expect("render failed");
    assert_eq!(out, "NAV\n");
}

#[test]
fn escaped_path_scenario() {
    let doc = sitegen::parse::lines(":insert \"a\\r\\\".b\\ntml\"\n").expect("parse failed");
    assert_eq!(
        doc,
        vec![Line::Command(Command::Insert(Insert::Path(Path::PathBuf(s("a\r\".b\ntml")))))],
    );
    let paths = insert_paths(&doc);
    assert_eq!(paths, vec![s("a\r\".b\ntml")]);
}

#[test]
fn bogus_command_is_syntax_error() {
    assert_eq!(sitegen::parse::lines(":bogus\n"), Err(TemplateError::SyntaxError));
}

#[test]
fn unrecognized_prefix_is_syntax_error() {
    assert_eq!(sitegen::parse::lines("hello\n"), Err(TemplateError::SyntaxError));
    assert_eq!(sitegen::parse::lines(" +x\n"), Err(TemplateError::SyntaxError));
}

#[test]
fn unknown_variable_fails_evaluation() {
    let doc = sitegen::parse::lines(":insert $self.unknown\n").expect("parse failed");
    assert_eq!(
        apply_template(&doc, &context("c", "t"), &vec![]),
        Err(TemplateError::UnknownVariable),
    );
    let v = Var(vec![Ident(s("self")), Ident(s("unknown"))]);
    assert_eq!(evaluate(&v, &context("c", "t")), Err(TemplateError::UnknownVariable));
    let v = Var(vec![Ident(s("page")), Ident(s("title"))]);
    assert_eq!(evaluate(&v, &context("c", "t")), Err(TemplateError::UnknownVariable));
}

#[test]
fn invalid_escape_code_fails_parse() {
    assert_eq!(sitegen::parse::lines(":insert \"a\\qb\"\n"), Err(TemplateError::InvalidEscape));
}

#[test]
fn zero_copy_variant_for_plain_double_quotes() {
    let doc = sitegen::parse::lines(":insert \"abc\"\n").expect("parse failed");
    assert_eq!(doc, vec![Line::Command(Command::Insert(Insert::Path(Path::Path(s("abc")))))]);
    let (decoded, _rest) = sitegen::lex::string_escaped("abc\"", 0).expect("scan failed");
    assert_eq!(decoded, "abc");
}

#[test]
fn empty_double_quoted_path_is_decoded_variant() {
    let doc = sitegen::parse::lines(":insert \"\"\n").expect("parse failed");
    assert_eq!(doc, vec![Line::Command(Command::Insert(Insert::Path(Path::PathBuf(s("")))))]);
}

#[test]
fn single_quoted_path_takes_no_escapes() {
    let doc = sitegen::parse::lines(":insert 'a\\b'\n").expect("parse failed");
    assert_eq!(doc, vec![Line::Command(Command::Insert(Insert::Path(Path::Path(s("a\\b")))))]);
}

#[test]
fn empty_document_parses_to_no_lines() {
    assert_eq!(sitegen::parse::lines(""), Ok(vec![]));
}

#[test]
fn blank_line_is_a_syntax_error() {
    assert_eq!(sitegen::parse::lines("+a\n\n"), Err(TemplateError::SyntaxError));
}

#[test]
fn final_line_may_lack_terminator() {
    let doc = sitegen::parse::lines("+a\n+b").expect("parse failed");
    assert_eq!(doc, vec![Line::Raw(s("a")), Line::Raw(s("b"))]);
}

#[test]
fn crlf_terminators_are_accepted() {
    let doc = sitegen::parse::lines("+a\r\n+b\r\n").expect("parse failed");
    assert_eq!(doc, vec![Line::Raw(s("a")), Line::Raw(s("b"))]);
}

#[test]
fn print_then_parse_reproduces_document() {
    let f = r#"+<!DOCTYPE html>
:insert $page.title
:insert "nav.html"
:insert "a\r\".b\ntml"
+
"#;
    let doc = sitegen::parse::lines(f).expect("parse failed");
    let printed = print_lines(&doc);
    let reparsed = sitegen::parse::lines(&printed).expect("reparse failed");
    assert_eq!(reparsed, doc);
}

#[test]
fn print_is_canonical_source_form() {
    let doc = vec![
        Line::Raw(s("a")),
        Line::Command(Command::Insert(Insert::Var(Var(vec![
            Ident(s("self")),
            Ident(s("title")),
        ])))),
        Line::Command(Command::Insert(Insert::Path(Path::Path(s("nav.html"))))),
    ];
    assert_eq!(print_lines(&doc), "+a\n:insert $self.title\n:insert 'nav.html'\n");
}

#[test]
fn resolve_path_joins_template_directory() {
    assert_eq!(resolve_path("templates/t.tpl", "nav.html"), "templates/nav.html");
    assert_eq!(resolve_path("t.tpl", "nav.html"), "nav.html");
    assert_eq!(resolve_path("a/b/t.tpl", "x/y.html"), "a/b/x/y.html");
    assert_eq!(resolve_path("templates/t.tpl", "/abs.html"), "/abs.html");
}

#[test]
fn path_for_maps_into_output_root() {
    assert_eq!(path_for("src", "out", "src/page.md", None), Some(s("out/page.md")));
    assert_eq!(path_for("src/", "out", "src/page.md", None), Some(s("out/page.md")));
    assert_eq!(path_for("src", "out/", "src/a/b.md", None), Some(s("out/a/b.md")));
    assert_eq!(path_for("src", "out", "other/page.md", None), None);
    assert_eq!(path_for("src", "out", "srcdir/page.md", None), None);
}

#[test]
fn path_for_strips_matching_extension() {
    assert_eq!(path_for("src", "out", "src/page.md", Some("md")), Some(s("out/page")));
    assert_eq!(path_for("src", "out", "src/page.md", Some("html")), Some(s("out/page.md")));
    assert_eq!(path_for("src", "out", "src/page", Some("md")), Some(s("out/page")));
    assert_eq!(path_for("src", "out", "src/.hidden", Some("hidden")), Some(s("out/.hidden")));
}

#[test]
fn path_as_str_returns_text_of_either_variant() {
    assert_eq!(Path::Path(s("a/b")).as_str(), "a/b");
    assert_eq!(Path::PathBuf(s("c\nd")).as_str(), "c\nd");
}

#[test]
fn evaluate_resolves_content_and_title() {
    let ctx = context("the content", "the title");
    let v = Var(vec![Ident(s("self")), Ident(s("content"))]);
    assert_eq!(evaluate(&v, &ctx), Ok(s("the content")));
    let v = Var(vec![Ident(s("self")), Ident(s("title"))]);
    assert_eq!(evaluate(&v, &ctx), Ok(s("the title")));
}

#[test]
fn mixed_document_renders_in_order() {
    let f = ":insert \"top.html\"\n+middle\n:insert $self.title\n:insert \"bottom.html\"\n";
    let doc = sitegen::parse::lines(f).expect("parse failed");
    let paths = insert_paths(&doc);
    assert_eq!(paths, vec![s("top.html"), s("bottom.html")]);
    let inserts = vec![s("TOP"), s("BOTTOM")];
    let out = apply_template(&doc, &context("", "T"), &inserts).expect("render failed");
    assert_eq!(out, "TOP\nmiddle\nT\nBOTTOM\n");
}
