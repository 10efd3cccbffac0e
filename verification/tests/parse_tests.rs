use sitegen::Command;
use sitegen::Ident;
use sitegen::Insert;
use sitegen::Line;
use sitegen::Path;
use sitegen::Var;

fn s(x: &str) -> String {
    String::from(x)
}

fn raw_line(x: &str) -> Line {
    Line::Raw(s(x))
}

fn path_line(p: &str) -> Line {
    Line::Command(Command::Insert(Insert::Path(Path::Path(s(p)))))
}

fn pathbuf_line(p: &str) -> Line {
    Line::Command(Command::Insert(Insert::Path(Path::PathBuf(s(p)))))
}

fn var_line(ids: &[&str]) -> Line {
    Line::Command(Command::Insert(Insert::Var(Var(
        ids.iter().map(|i| Ident(s(i))).collect(),
    ))))
}

#[test]
fn full_parse() {
    let f = r#"+<!DOCTYPE html>
+  <head>
:insert $page.title
+              <nav id="navbar" style="margin-bottom: 0px;">
:insert "nav.html"
+              </nav>
+              <main/>
:insert $page.content
+              <aside id="leftSidebar" style="margin-right: 0px;">
:insert "leftbar.html"
+              </aside>
+            </div>
+
"#;
    let parsed = sitegen::parse::lines(f).expect("parse failed");
    assert_eq!(
        parsed,
        vec![
            raw_line("<!DOCTYPE html>"),
            raw_line("  <head>"),
            var_line(&["page", "title"]),
            raw_line("              <nav id=\"navbar\" style=\"margin-bottom: 0px;\">"),
            path_line("nav.html"),
            raw_line("              </nav>"),
            raw_line("              <main/>"),
            var_line(&["page", "content"]),
            raw_line("              <aside id=\"leftSidebar\" style=\"margin-right: 0px;\">"),
            path_line("leftbar.html"),
            raw_line("              </aside>"),
            raw_line("            </div>"),
            raw_line(""),
        ],
    )
}

#[test]
fn insert() {
    let f = r#":insert $page.title
:insert "nav.html"
:insert $page.content
:insert "leftbar.html"
"#;
    let parsed = sitegen::parse::lines(f).expect("parse failed");
    assert_eq!(
        parsed,
        vec![
            var_line(&["page", "title"]),
            path_line("nav.html"),
            var_line(&["page", "content"]),
            path_line("leftbar.html"),
        ],
    )
}

#[test]
fn insert_path() {
    let f = r#":insert "nav.html"
:insert "leftbar.html"
"#;
    let parsed = sitegen::parse::lines(f).expect("parse failed");
    assert_eq!(parsed, vec![path_line("nav.html"), path_line("leftbar.html")],)
}

#[test]
fn insert_path_escaped() {
    let f = r#":insert "nav\r\".h\ntml""#;
    let parsed = sitegen::parse::lines(f).expect("parse failed");
    assert_eq!(parsed, vec![pathbuf_line("nav\r\".h\ntml")],)
}

#[test]
fn path_escaped() {
    let f = r#""nav\r\".h\ntml""#;
    let (parsed, _rest) = sitegen::parse::str_double_escaped(f, 0).expect("parse failed");
    assert_eq!(parsed, "nav\r\".h\ntml")
}

#[test]
fn basic_escaped() {
    let (parsed, end) = sitegen::lex::string_escaped("ab\\\"cd", 0).expect("parse failed");
    assert_eq!((end, parsed), (6, String::from("ab\"cd")));
    let (parsed, end) = sitegen::lex::string_escaped("ab\\ncd", 0).expect("parse failed");
    assert_eq!((end, parsed), (6, String::from("ab\ncd")));
}

#[test]
fn empty_string_escaped() {
    let f = "";
    let (parsed, _rest) = sitegen::lex::string_escaped(f, 0).expect("parse failed");
    assert_eq!(parsed, "")
}

#[test]
fn string_escaped() {
    let f = r#"nav\r\".h\ntml"#;
    let (parsed, _rest) = sitegen::lex::string_escaped(f, 0).expect("parse failed");
    assert_eq!(parsed, "nav\r\".h\ntml")
}

#[test]
fn insert_var() {
    let f = r#":insert $page.title
:insert $page.content
"#;
    let parsed = sitegen::parse::lines(f).expect("parse failed");
    assert_eq!(parsed, vec![var_line(&["page", "title"]), var_line(&["page", "content"])],)
}

#[test]
fn raw() {
    let f = r#"+<!DOCTYPE html>
+  <head>
+              <nav id="navbar" style="margin-bottom: 0px;">
+              </nav>
+              <main/>
+              <aside id="leftSidebar" style="margin-right: 0px;">
+              </aside>
+            </div>
+
"#;
    let parsed = sitegen::parse::lines(f).expect("parse failed");
    assert_eq!(
        parsed,
        vec![
            raw_line("<!DOCTYPE html>"),
            raw_line("  <head>"),
            raw_line("              <nav id=\"navbar\" style=\"margin-bottom: 0px;\">"),
            raw_line("              </nav>"),
            raw_line("              <main/>"),
            raw_line("              <aside id=\"leftSidebar\" style=\"margin-right: 0px;\">"),
            raw_line("              </aside>"),
            raw_line("            </div>"),
            raw_line(""),
        ],
    )
}
