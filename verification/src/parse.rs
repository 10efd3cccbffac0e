//! The template grammar. A document is a sequence of lines separated by `\n`
//! or `\r\n`; a line starting with `+` is literal text, a line starting with
//! `:` is a directive, and anything else is a syntax error. The spec
//! functions here define the grammar over `Seq<char>`; the executable
//! functions parse exactly according to them.

use vstd::prelude::*;

use crate::ast::CommandModel;
use crate::ast::InsertModel;
use crate::ast::LineModel;
use crate::ast::PathModel;
use crate::ast::TemplateError;
use crate::ast::Command;
use crate::ast::Ident;
use crate::ast::Insert;
use crate::ast::Line;
use crate::ast::Path;
use crate::ast::Var;
use crate::lex::escaped_scan;
use crate::lex::is_term_at;
use crate::lex::lemma_escaped_scan_bounds;
use crate::lex::lemma_raw_end_bounds;
use crate::lex::lemma_scan_stop_bounds;
use crate::lex::lemma_scan_stop_is;
use crate::lex::noescape_end;
use crate::lex::lemma_noescape_end_bounds;
use crate::lex::raw_end;
use crate::lex::scan_stop;
use crate::lex::stop_noescape;
use crate::lex::string_escaped;
use crate::lex::string_noescape;

verus! {

/// Stop characters of a single-quoted scan: the closing quote or a newline.
pub open spec fn stop_squote(c: char) -> bool {
    c == '\'' || c == '\n'
}

/// Characters that end an identifier: dot, space, and the line-ending
/// characters.
pub open spec fn stop_ident(c: char) -> bool {
    c == '.' || c == ' ' || c == '\r' || c == '\n'
}

/// The whitespace accepted between the `insert` keyword and its operand.
pub open spec fn is_space(c: char) -> bool {
    c == ' ' || c == '\t'
}

pub open spec fn squote_end(s: Seq<char>, i: int) -> int {
    scan_stop(s, i, |c: char| stop_squote(c))
}

pub open spec fn ident_end(s: Seq<char>, i: int) -> int {
    scan_stop(s, i, |c: char| stop_ident(c))
}

pub open spec fn space_end(s: Seq<char>, i: int) -> int {
    scan_stop(s, i, |c: char| !is_space(c))
}

pub proof fn lemma_squote_end_bounds(s: Seq<char>, i: int)
    requires
        0 <= i <= s.len(),
    ensures
        i <= squote_end(s, i) <= s.len(),
        forall|j: int| i <= j < squote_end(s, i) ==> !stop_squote(s[j]),
        squote_end(s, i) == s.len() || stop_squote(s[squote_end(s, i)]),
{
    lemma_scan_stop_bounds(s, i, |c: char| stop_squote(c));
}

pub proof fn lemma_squote_end_is(s: Seq<char>, i: int, b: int)
    requires
        0 <= i <= b <= s.len(),
        forall|j: int| i <= j < b ==> !stop_squote(s[j]),
        b == s.len() || stop_squote(s[b]),
    ensures
        squote_end(s, i) == b,
{
    lemma_scan_stop_is(s, i, b, |c: char| stop_squote(c));
}

pub proof fn lemma_ident_end_bounds(s: Seq<char>, i: int)
    requires
        0 <= i <= s.len(),
    ensures
        i <= ident_end(s, i) <= s.len(),
        forall|j: int| i <= j < ident_end(s, i) ==> !stop_ident(s[j]),
        ident_end(s, i) == s.len() || stop_ident(s[ident_end(s, i)]),
{
    lemma_scan_stop_bounds(s, i, |c: char| stop_ident(c));
}

pub proof fn lemma_ident_end_is(s: Seq<char>, i: int, b: int)
    requires
        0 <= i <= b <= s.len(),
        forall|j: int| i <= j < b ==> !stop_ident(s[j]),
        b == s.len() || stop_ident(s[b]),
    ensures
        ident_end(s, i) == b,
{
    lemma_scan_stop_is(s, i, b, |c: char| stop_ident(c));
}

pub proof fn lemma_space_end_bounds(s: Seq<char>, i: int)
    requires
        0 <= i <= s.len(),
    ensures
        i <= space_end(s, i) <= s.len(),
        forall|j: int| i <= j < space_end(s, i) ==> is_space(s[j]),
        space_end(s, i) == s.len() || !is_space(s[space_end(s, i)]),
{
    lemma_scan_stop_bounds(s, i, |c: char| !is_space(c));
}

pub proof fn lemma_space_end_is(s: Seq<char>, i: int, b: int)
    requires
        0 <= i <= b <= s.len(),
        forall|j: int| i <= j < b ==> is_space(s[j]),
        b == s.len() || !is_space(s[b]),
    ensures
        space_end(s, i) == b,
{
    lemma_scan_stop_is(s, i, b, |c: char| !is_space(c));
}

/// A line terminator at index `i`: `Some(1)` for `\n`, `Some(2)` for `\r\n`,
/// `None` otherwise.
pub open spec fn spec_line_end(s: Seq<char>, i: int) -> Option<int> {
    if 0 <= i < s.len() && s[i] == '\n' {
        Some(1int)
    } else if 0 <= i && i + 1 < s.len() && s[i] == '\r' && s[i + 1] == '\n' {
        Some(2int)
    } else {
        None
    }
}

/// A single-quoted path: its text is taken literally, with no escape
/// processing, and must close on the same line.
pub open spec fn spec_str_single(s: Seq<char>, i: int) -> Option<(Seq<char>, int)> {
    if 0 <= i < s.len() && s[i] == '\'' {
        let e = squote_end(s, i + 1);
        if e < s.len() && s[e] == '\'' {
            Some((s.subrange(i + 1, e), e + 1))
        } else {
            None
        }
    } else {
        None
    }
}

/// The double-quoted fast path: non-empty text free of backslashes, taken
/// verbatim. A backslash, an empty body or a missing closing quote makes it
/// fail, deferring to the escaped scan.
pub open spec fn spec_str_double_unescaped(s: Seq<char>, i: int) -> Option<(Seq<char>, int)> {
    if 0 <= i < s.len() && s[i] == '"' {
        let e = noescape_end(s, i + 1);
        if e > i + 1 && e < s.len() && s[e] == '"' {
            Some((s.subrange(i + 1, e), e + 1))
        } else {
            None
        }
    } else {
        None
    }
}

/// A double-quoted path with escape decoding.
pub open spec fn spec_str_double_escaped(s: Seq<char>, i: int) -> Result<
    (Seq<char>, int),
    TemplateError,
> {
    if 0 <= i < s.len() && s[i] == '"' {
        match escaped_scan(s, i + 1) {
            Ok((d, e)) => if e < s.len() && s[e] == '"' {
                Ok((d, e + 1))
            } else {
                Err(TemplateError::SyntaxError)
            },
            Err(er) => Err(er),
        }
    } else {
        Err(TemplateError::SyntaxError)
    }
}

/// A path operand: single-quoted, then double-quoted without escapes, then
/// double-quoted with escapes — the first alternative that fits wins, so the
/// zero-copy forms are preferred whenever legal.
pub open spec fn spec_path(s: Seq<char>, i: int) -> Result<(PathModel, int), TemplateError> {
    match spec_str_single(s, i) {
        Some((t, e)) => Ok((PathModel::Path(t), e)),
        None => match spec_str_double_unescaped(s, i) {
            Some((t, e)) => Ok((PathModel::Path(t), e)),
            None => match spec_str_double_escaped(s, i) {
                Ok((t, e)) => Ok((PathModel::PathBuf(t), e)),
                Err(er) => Err(er),
            },
        },
    }
}

/// A dotted chain of identifiers. Every identifier is a maximal non-empty
/// run of characters other than dot, space and line endings.
pub open spec fn spec_var(s: Seq<char>, i: int) -> Result<(Seq<Seq<char>>, int), TemplateError>
    decreases s.len() - i,
        when 0 <= i <= s.len()
        via spec_var_decreases
{
    let e = ident_end(s, i);
    if e == i {
        Err(TemplateError::SyntaxError)
    } else if e < s.len() && s[e] == '.' {
        match spec_var(s, e + 1) {
            Ok((ids, j)) => Ok((seq![s.subrange(i, e)] + ids, j)),
            Err(er) => Err(er),
        }
    } else {
        Ok((seq![s.subrange(i, e)], e))
    }
}

#[via_fn]
proof fn spec_var_decreases(s: Seq<char>, i: int) {
    if 0 <= i <= s.len() {
        lemma_ident_end_bounds(s, i);
    }
}

/// An insert operand: a `$`-prefixed variable path, or a quoted file path.
pub open spec fn spec_insert(s: Seq<char>, i: int) -> Result<(InsertModel, int), TemplateError> {
    if 0 <= i < s.len() && s[i] == '$' {
        match spec_var(s, i + 1) {
            Ok((ids, j)) => Ok((InsertModel::Var(ids), j)),
            Err(er) => Err(er),
        }
    } else {
        match spec_path(s, i) {
            Ok((p, j)) => Ok((InsertModel::Path(p), j)),
            Err(er) => Err(er),
        }
    }
}

/// The keyword `insert` stands at index `i`.
pub open spec fn has_insert_at(s: Seq<char>, i: int) -> bool {
    &&& 0 <= i
    &&& i + 6 <= s.len()
    &&& s[i] == 'i'
    &&& s[i + 1] == 'n'
    &&& s[i + 2] == 's'
    &&& s[i + 3] == 'e'
    &&& s[i + 4] == 'r'
    &&& s[i + 5] == 't'
}

/// A directive body: the keyword `insert`, mandatory whitespace, then the
/// operand. Once the keyword matched, any further failure is final — the
/// line is never reinterpreted as literal text.
pub open spec fn spec_command(s: Seq<char>, i: int) -> Result<(CommandModel, int), TemplateError> {
    if has_insert_at(s, i) {
        let w = space_end(s, i + 6);
        if w > i + 6 {
            match spec_insert(s, w) {
                Ok((ins, j)) => Ok((CommandModel::Insert(ins), j)),
                Err(er) => Err(er),
            }
        } else {
            Err(TemplateError::SyntaxError)
        }
    } else {
        Err(TemplateError::SyntaxError)
    }
}

/// One line: `:` followed by a directive, or `+` followed by literal text
/// running to the line terminator; any other first character is refused.
pub open spec fn spec_line(s: Seq<char>, i: int) -> Result<(LineModel, int), TemplateError> {
    if 0 <= i < s.len() && s[i] == ':' {
        match spec_command(s, i + 1) {
            Ok((c, j)) => Ok((LineModel::Command(c), j)),
            Err(er) => Err(er),
        }
    } else if 0 <= i < s.len() && s[i] == '+' {
        let e = raw_end(s, i + 1);
        Ok((LineModel::Raw(s.subrange(i + 1, e)), e))
    } else {
        Err(TemplateError::SyntaxError)
    }
}

pub proof fn lemma_spec_var_bounds(s: Seq<char>, i: int)
    requires
        0 <= i <= s.len(),
    ensures
        match spec_var(s, i) {
            Ok((ids, j)) => i < j <= s.len() && ids.len() >= 1,
            Err(er) => er == TemplateError::SyntaxError,
        },
    decreases s.len() - i,
{
    lemma_ident_end_bounds(s, i);
    let e = ident_end(s, i);
    if e != i && e < s.len() && s[e] == '.' {
        lemma_spec_var_bounds(s, e + 1);
    }
}

pub proof fn lemma_spec_path_bounds(s: Seq<char>, i: int)
    requires
        0 <= i <= s.len(),
    ensures
        match spec_path(s, i) {
            Ok((p, j)) => i < j <= s.len(),
            Err(er) => er == TemplateError::SyntaxError || er == TemplateError::InvalidEscape,
        },
{
    if 0 <= i < s.len() && s[i] == '\'' {
        lemma_squote_end_bounds(s, i + 1);
    }
    if 0 <= i < s.len() && s[i] == '"' {
        lemma_noescape_end_bounds(s, i + 1);
        lemma_escaped_scan_bounds(s, i + 1);
    }
}

pub proof fn lemma_spec_insert_bounds(s: Seq<char>, i: int)
    requires
        0 <= i <= s.len(),
    ensures
        match spec_insert(s, i) {
            Ok((ins, j)) => i < j <= s.len(),
            Err(er) => er == TemplateError::SyntaxError || er == TemplateError::InvalidEscape,
        },
{
    if 0 <= i < s.len() && s[i] == '$' {
        lemma_spec_var_bounds(s, i + 1);
    } else {
        lemma_spec_path_bounds(s, i);
    }
}

pub proof fn lemma_spec_command_bounds(s: Seq<char>, i: int)
    requires
        0 <= i <= s.len(),
    ensures
        match spec_command(s, i) {
            Ok((c, j)) => i < j <= s.len(),
            Err(er) => er == TemplateError::SyntaxError || er == TemplateError::InvalidEscape,
        },
{
    if has_insert_at(s, i) {
        lemma_space_end_bounds(s, i + 6);
        let w = space_end(s, i + 6);
        if w > i + 6 {
            lemma_spec_insert_bounds(s, w);
        }
    }
}

pub proof fn lemma_spec_line_bounds(s: Seq<char>, i: int)
    requires
        0 <= i <= s.len(),
    ensures
        match spec_line(s, i) {
            Ok((l, j)) => i < j <= s.len(),
            Err(er) => er == TemplateError::SyntaxError || er == TemplateError::InvalidEscape,
        },
{
    if 0 <= i < s.len() && s[i] == ':' {
        lemma_spec_command_bounds(s, i + 1);
    } else if 0 <= i < s.len() && s[i] == '+' {
        lemma_raw_end_bounds(s, i + 1);
    }
}

/// A whole document: lines separated by terminators, an optional final line
/// with no terminator, and nothing left over. Parsing is total — every line
/// must parse, or the whole document fails.
pub open spec fn spec_doc(s: Seq<char>, i: int) -> Result<Seq<LineModel>, TemplateError>
    decreases s.len() - i,
        when 0 <= i <= s.len()
        via spec_doc_decreases
{
    if i >= s.len() {
        Ok(Seq::empty())
    } else {
        match spec_line(s, i) {
            Err(er) => Err(er),
            Ok((l, j)) => {
                if j >= s.len() {
                    Ok(seq![l])
                } else {
                    match spec_line_end(s, j) {
                        None => Err(TemplateError::SyntaxError),
                        Some(m) => match spec_doc(s, j + m) {
                            Ok(rest) => Ok(seq![l] + rest),
                            Err(er) => Err(er),
                        },
                    }
                }
            },
        }
    }
}

#[via_fn]
proof fn spec_doc_decreases(s: Seq<char>, i: int) {
    if 0 <= i <= s.len() {
        lemma_spec_line_bounds(s, i);
    }
}

/// The spec-level image of a parsed document.
pub open spec fn lines_view(v: Seq<Line>) -> Seq<LineModel> {
    v.map_values(|l: Line| l@)
}

fn scan_squote(s: &str, pos: usize) -> (end: usize)
    requires
        pos <= s@.len(),
    ensures
        end == squote_end(s@, pos as int),
{
    let len = s.unicode_len();
    let mut j = pos;
    loop
        invariant
            pos <= j <= len,
            len == s@.len(),
            squote_end(s@, pos as int) == scan_stop(s@, j as int, |c: char| stop_squote(c)),
        decreases len - j,
    {
        if j >= len {
            proof {
                assert(scan_stop(s@, j as int, |c: char| stop_squote(c)) == j);
            }
            return j;
        }
        let c = s.get_char(j);
        if c == '\'' || c == '\n' {
            proof {
                assert(scan_stop(s@, j as int, |c: char| stop_squote(c)) == j);
            }
            return j;
        }
        j = j + 1;
    }
}

fn scan_ident(s: &str, pos: usize) -> (end: usize)
    requires
        pos <= s@.len(),
    ensures
        end == ident_end(s@, pos as int),
{
    let len = s.unicode_len();
    let mut j = pos;
    loop
        invariant
            pos <= j <= len,
            len == s@.len(),
            ident_end(s@, pos as int) == scan_stop(s@, j as int, |c: char| stop_ident(c)),
        decreases len - j,
    {
        if j >= len {
            proof {
                assert(scan_stop(s@, j as int, |c: char| stop_ident(c)) == j);
            }
            return j;
        }
        let c = s.get_char(j);
        if c == '.' || c == ' ' || c == '\r' || c == '\n' {
            proof {
                assert(scan_stop(s@, j as int, |c: char| stop_ident(c)) == j);
            }
            return j;
        }
        j = j + 1;
    }
}

fn scan_spaces(s: &str, pos: usize) -> (end: usize)
    requires
        pos <= s@.len(),
    ensures
        end == space_end(s@, pos as int),
{
    let len = s.unicode_len();
    let mut j = pos;
    loop
        invariant
            pos <= j <= len,
            len == s@.len(),
            space_end(s@, pos as int) == scan_stop(s@, j as int, |c: char| !is_space(c)),
        decreases len - j,
    {
        if j >= len {
            proof {
                assert(scan_stop(s@, j as int, |c: char| !is_space(c)) == j);
            }
            return j;
        }
        let c = s.get_char(j);
        if !(c == ' ' || c == '\t') {
            proof {
                assert(scan_stop(s@, j as int, |c: char| !is_space(c)) == j);
            }
            return j;
        }
        j = j + 1;
    }
}

/// Recognize a line terminator at `pos`: one character for `\n`, two for
/// `\r\n`.
pub fn line_end(s: &str, pos: usize) -> (r: Option<usize>)
    requires
        pos <= s@.len(),
    ensures
        match r {
            Some(n) => spec_line_end(s@, pos as int) == Some(n as int),
            None => spec_line_end(s@, pos as int) is None,
        },
{
    let len = s.unicode_len();
    if pos < len {
        let c = s.get_char(pos);
        if c == '\n' {
            return Some(1);
        }
        if c == '\r' && pos + 1 < len {
            if s.get_char(pos + 1) == '\n' {
                return Some(2);
            }
        }
    }
    None
}

/// Literal text from `pos` to the next line terminator (or the end of the
/// input), which is not consumed.
pub fn raw(s: &str, pos: usize) -> (r: (String, usize))
    requires
        pos <= s@.len(),
    ensures
        r.1 == raw_end(s@, pos as int),
        r.0@ == s@.subrange(pos as int, r.1 as int),
        pos <= r.1 <= s@.len(),
{
    let len = s.unicode_len();
    let mut j = pos;
    loop
        invariant_except_break
            pos <= j <= len,
            len == s@.len(),
            raw_end(s@, pos as int) == raw_end(s@, j as int),
        ensures
            pos <= j <= len,
            j == raw_end(s@, pos as int),
        decreases len - j,
    {
        if j >= len {
            proof {
                assert(raw_end(s@, j as int) == j);
            }
            break;
        }
        let c = s.get_char(j);
        let mut term = false;
        if c == '\n' {
            term = true;
        } else if c == '\r' && j + 1 < len {
            if s.get_char(j + 1) == '\n' {
                term = true;
            }
        }
        if term {
            proof {
                assert(is_term_at(s@, j as int));
                assert(raw_end(s@, j as int) == j);
            }
            break;
        }
        proof {
            assert(!is_term_at(s@, j as int));
        }
        j = j + 1;
    }
    let text = s.substring_char(pos, j);
    (String::from_str(text), j)
}

/// One identifier: a maximal run of characters other than dot, space and
/// line endings; fails if the run is empty.
pub fn ident(s: &str, pos: usize) -> (r: Result<(Ident, usize), TemplateError>)
    requires
        pos <= s@.len(),
    ensures
        match r {
            Ok((id, e)) => ident_end(s@, pos as int) == e as int && pos < e <= s@.len() && id@
                == s@.subrange(pos as int, e as int),
            Err(er) => er == TemplateError::SyntaxError && ident_end(s@, pos as int) == pos,
        },
{
    let e = scan_ident(s, pos);
    proof {
        lemma_ident_end_bounds(s@, pos as int);
    }
    if e == pos {
        Err(TemplateError::SyntaxError)
    } else {
        let text = s.substring_char(pos, e);
        Ok((Ident(String::from_str(text)), e))
    }
}

/// A dotted variable path, such as `self.title`.
pub fn var(s: &str, pos: usize) -> (r: Result<(Var, usize), TemplateError>)
    requires
        pos <= s@.len(),
    ensures
        match r {
            Ok((v, e)) => spec_var(s@, pos as int) == Ok::<(Seq<Seq<char>>, int), TemplateError>(
                (v@, e as int),
            ) && pos < e <= s@.len(),
            Err(er) => spec_var(s@, pos as int) == Err::<(Seq<Seq<char>>, int), TemplateError>(er),
        },
{
    let len = s.unicode_len();
    let mut ids: Vec<Ident> = Vec::new();
    let mut cur = pos;
    loop
        invariant
            pos <= cur <= len,
            len == s@.len(),
            spec_var(s@, pos as int) == match spec_var(s@, cur as int) {
                Ok((rest, j)) => Ok::<(Seq<Seq<char>>, int), TemplateError>(
                    (ids@.map_values(|id: Ident| id@) + rest, j),
                ),
                Err(er) => Err::<(Seq<Seq<char>>, int), TemplateError>(er),
            },
        decreases len - cur,
    {
        let ghost ids0 = ids@;
        match ident(s, cur) {
            Err(er) => {
                proof {
                    assert(spec_var(s@, cur as int) == Err::<(Seq<Seq<char>>, int), TemplateError>(
                        TemplateError::SyntaxError,
                    ));
                }
                return Err(er);
            },
            Ok((id, e)) => {
                let ghost idv = id@;
                ids.push(id);
                proof {
                    assert(ids@.map_values(|id: Ident| id@) =~= ids0.map_values(|id: Ident| id@)
                        + seq![idv]);
                }
                let mut dot = false;
                if e < len {
                    if s.get_char(e) == '.' {
                        dot = true;
                    }
                }
                if dot {
                    proof {
                        lemma_spec_var_bounds(s@, e + 1);
                        assert(spec_var(s@, cur as int) == match spec_var(s@, e + 1) {
                            Ok((rest2, j)) => Ok::<(Seq<Seq<char>>, int), TemplateError>(
                                (seq![s@.subrange(cur as int, e as int)] + rest2, j),
                            ),
                            Err(er) => Err::<(Seq<Seq<char>>, int), TemplateError>(er),
                        });
                        match spec_var(s@, e + 1) {
                            Ok((rest2, j)) => {
                                assert(ids0.map_values(|id: Ident| id@) + (seq![idv] + rest2) =~= (
                                ids0.map_values(|id: Ident| id@) + seq![idv]) + rest2);
                            },
                            Err(_) => {},
                        }
                    }
                    cur = e + 1;
                } else {
                    proof {
                        assert(!(e < s@.len() && s@[e as int] == '.'));
                        assert(spec_var(s@, cur as int) == Ok::<
                            (Seq<Seq<char>>, int),
                            TemplateError,
                        >((seq![s@.subrange(cur as int, e as int)], e as int)));
                        assert(ids0.map_values(|id: Ident| id@) + seq![idv] =~= ids@.map_values(
                            |id: Ident| id@,
                        ));
                    }
                    let v = Var(ids);
                    return Ok((v, e));
                }
            },
        }
    }
}

/// A single-quoted path operand.
pub fn str_single(s: &str, pos: usize) -> (r: Option<(String, usize)>)
    requires
        pos <= s@.len(),
    ensures
        match r {
            Some((t, e)) => spec_str_single(s@, pos as int) == Some((t@, e as int)) && pos < e
                <= s@.len(),
            None => spec_str_single(s@, pos as int) is None,
        },
{
    let len = s.unicode_len();
    if pos < len {
        if s.get_char(pos) == '\'' {
            let e = scan_squote(s, pos + 1);
            proof {
                lemma_squote_end_bounds(s@, pos + 1);
            }
            if e < len {
                if s.get_char(e) == '\'' {
                    let text = s.substring_char(pos + 1, e);
                    return Some((String::from_str(text), e + 1));
                }
            }
            return None;
        }
    }
    None
}

/// The double-quoted fast path: no backslash anywhere before the closing
/// quote, text taken verbatim.
pub fn str_double_unescaped(s: &str, pos: usize) -> (r: Option<(String, usize)>)
    requires
        pos <= s@.len(),
    ensures
        match r {
            Some((t, e)) => spec_str_double_unescaped(s@, pos as int) == Some((t@, e as int))
                && pos < e <= s@.len(),
            None => spec_str_double_unescaped(s@, pos as int) is None,
        },
{
    let len = s.unicode_len();
    if pos < len {
        if s.get_char(pos) == '"' {
            let e = string_noescape(s, pos + 1);
            proof {
                lemma_noescape_end_bounds(s@, pos + 1);
            }
            if e > pos + 1 && e < len {
                if s.get_char(e) == '"' {
                    let text = s.substring_char(pos + 1, e);
                    return Some((String::from_str(text), e + 1));
                }
            }
            return None;
        }
    }
    None
}

/// A double-quoted path with escape decoding into fresh storage.
pub fn str_double_escaped(s: &str, pos: usize) -> (r: Result<(String, usize), TemplateError>)
    requires
        pos <= s@.len(),
    ensures
        match r {
            Ok((t, e)) => spec_str_double_escaped(s@, pos as int) == Ok::<
                (Seq<char>, int),
                TemplateError,
            >((t@, e as int)) && pos < e <= s@.len(),
            Err(er) => spec_str_double_escaped(s@, pos as int) == Err::<
                (Seq<char>, int),
                TemplateError,
            >(er),
        },
{
    let len = s.unicode_len();
    if pos < len {
        if s.get_char(pos) == '"' {
            proof {
                lemma_escaped_scan_bounds(s@, pos + 1);
            }
            match string_escaped(s, pos + 1) {
                Ok((d, e)) => {
                    if e < len {
                        if s.get_char(e) == '"' {
                            return Ok((d, e + 1));
                        }
                    }
                    return Err(TemplateError::SyntaxError);
                },
                Err(er) => {
                    return Err(er);
                },
            }
        }
    }
    Err(TemplateError::SyntaxError)
}

/// A path operand, trying the zero-copy alternatives before the escaped one.
pub fn path(s: &str, pos: usize) -> (r: Result<(Path, usize), TemplateError>)
    requires
        pos <= s@.len(),
    ensures
        match r {
            Ok((p, e)) => spec_path(s@, pos as int) == Ok::<(PathModel, int), TemplateError>(
                (p@, e as int),
            ) && pos < e <= s@.len(),
            Err(er) => spec_path(s@, pos as int) == Err::<(PathModel, int), TemplateError>(er),
        },
{
    match str_single(s, pos) {
        Some((t, e)) => Ok((Path::Path(t), e)),
        None => match str_double_unescaped(s, pos) {
            Some((t, e)) => Ok((Path::Path(t), e)),
            None => match str_double_escaped(s, pos) {
                Ok((t, e)) => Ok((Path::PathBuf(t), e)),
                Err(er) => Err(er),
            },
        },
    }
}

/// An insert operand: `$` starts a variable path, anything else must be a
/// quoted file path.
pub fn insert(s: &str, pos: usize) -> (r: Result<(Insert, usize), TemplateError>)
    requires
        pos <= s@.len(),
    ensures
        match r {
            Ok((ins, e)) => spec_insert(s@, pos as int) == Ok::<(InsertModel, int), TemplateError>(
                (ins@, e as int),
            ) && pos < e <= s@.len(),
            Err(er) => spec_insert(s@, pos as int) == Err::<(InsertModel, int), TemplateError>(er),
        },
{
    let len = s.unicode_len();
    if pos < len {
        if s.get_char(pos) == '$' {
            return match var(s, pos + 1) {
                Ok((v, e)) => Ok((Insert::Var(v), e)),
                Err(er) => Err(er),
            };
        }
    }
    match path(s, pos) {
        Ok((p, e)) => Ok((Insert::Path(p), e)),
        Err(er) => Err(er),
    }
}

/// A directive body: the keyword `insert`, whitespace, then the operand.
pub fn command(s: &str, pos: usize) -> (r: Result<(Command, usize), TemplateError>)
    requires
        pos <= s@.len(),
    ensures
        match r {
            Ok((c, e)) => spec_command(s@, pos as int) == Ok::<(CommandModel, int), TemplateError>(
                (c@, e as int),
            ) && pos < e <= s@.len(),
            Err(er) => spec_command(s@, pos as int) == Err::<(CommandModel, int), TemplateError>(
                er,
            ),
        },
{
    let len = s.unicode_len();
    if len - pos >= 6 {
        let kw = s.get_char(pos) == 'i' && s.get_char(pos + 1) == 'n' && s.get_char(pos + 2) == 's'
            && s.get_char(pos + 3) == 'e' && s.get_char(pos + 4) == 'r' && s.get_char(pos + 5)
            == 't';
        if kw {
            proof {
                assert(has_insert_at(s@, pos as int));
            }
            let w = scan_spaces(s, pos + 6);
            proof {
                lemma_space_end_bounds(s@, pos + 6);
            }
            if w > pos + 6 {
                return match insert(s, w) {
                    Ok((ins, e)) => Ok((Command::Insert(ins), e)),
                    Err(er) => Err(er),
                };
            }
            return Err(TemplateError::SyntaxError);
        }
        proof {
            assert(!has_insert_at(s@, pos as int));
        }
        return Err(TemplateError::SyntaxError);
    }
    proof {
        assert(!has_insert_at(s@, pos as int));
    }
    Err(TemplateError::SyntaxError)
}

/// One line, classified by its first character: `:` starts a directive, `+`
/// starts literal text, anything else is a syntax error.
pub fn line(s: &str, pos: usize) -> (r: Result<(Line, usize), TemplateError>)
    requires
        pos <= s@.len(),
    ensures
        match r {
            Ok((l, e)) => spec_line(s@, pos as int) == Ok::<(LineModel, int), TemplateError>(
                (l@, e as int),
            ) && pos < e <= s@.len(),
            Err(er) => spec_line(s@, pos as int) == Err::<(LineModel, int), TemplateError>(er),
        },
{
    let len = s.unicode_len();
    if pos < len {
        let c = s.get_char(pos);
        if c == ':' {
            return match command(s, pos + 1) {
                Ok((cmd, e)) => Ok((Line::Command(cmd), e)),
                Err(er) => Err(er),
            };
        }
        if c == '+' {
            let (text, e) = raw(s, pos + 1);
            proof {
                lemma_raw_end_bounds(s@, pos + 1);
            }
            return Ok((Line::Raw(text), e));
        }
    }
    Err(TemplateError::SyntaxError)
}

/// Parse a whole template document. The entire input must be consumed:
/// trailing unparsed text, like any malformed line, fails the whole parse —
/// there is no partial success and no falling back to literal text.
pub fn lines(s: &str) -> (r: Result<Vec<Line>, TemplateError>)
    ensures
        match r {
            Ok(v) => spec_doc(s@, 0) == Ok::<Seq<LineModel>, TemplateError>(lines_view(v@)),
            Err(er) => spec_doc(s@, 0) == Err::<Seq<LineModel>, TemplateError>(er),
        },
{
    let len = s.unicode_len();
    let mut acc: Vec<Line> = Vec::new();
    let mut pos: usize = 0;
    loop
        invariant
            pos <= len,
            len == s@.len(),
            spec_doc(s@, 0) == match spec_doc(s@, pos as int) {
                Ok(rest) => Ok::<Seq<LineModel>, TemplateError>(lines_view(acc@) + rest),
                Err(er) => Err::<Seq<LineModel>, TemplateError>(er),
            },
        decreases len - pos,
    {
        if pos >= len {
            proof {
                assert(spec_doc(s@, pos as int) == Ok::<Seq<LineModel>, TemplateError>(
                    Seq::empty(),
                ));
                assert(lines_view(acc@) + Seq::<LineModel>::empty() =~= lines_view(acc@));
            }
            return Ok(acc);
        }
        let ghost acc0 = acc@;
        match line(s, pos) {
            Err(er) => {
                return Err(er);
            },
            Ok((l, j)) => {
                let ghost lv = l@;
                acc.push(l);
                proof {
                    assert(lines_view(acc@) =~= lines_view(acc0) + seq![lv]);
                }
                if j >= len {
                    proof {
                        assert(spec_doc(s@, pos as int) == Ok::<Seq<LineModel>, TemplateError>(
                            seq![lv],
                        ));
                        assert(lines_view(acc0) + seq![lv] =~= lines_view(acc@));
                    }
                    return Ok(acc);
                }
                match line_end(s, j) {
                    None => {
                        proof {
                            assert(spec_doc(s@, pos as int) == Err::<
                                Seq<LineModel>,
                                TemplateError,
                            >(TemplateError::SyntaxError));
                        }
                        return Err(TemplateError::SyntaxError);
                    },
                    Some(m) => {
                        proof {
                            assert(spec_line_end(s@, j as int) == Some(m as int));
                            assert(j + m <= s@.len());
                            assert(spec_doc(s@, pos as int) == match spec_doc(s@, j + m) {
                                Ok(rest) => Ok::<Seq<LineModel>, TemplateError>(seq![lv] + rest),
                                Err(er) => Err::<Seq<LineModel>, TemplateError>(er),
                            });
                            match spec_doc(s@, j + m) {
                                Ok(rest) => {
                                    assert(lines_view(acc0) + (seq![lv] + rest) =~= (lines_view(
                                        acc0,
                                    ) + seq![lv]) + rest);
                                },
                                Err(_) => {},
                            }
                        }
                        pos = j + m;
                    },
                }
            },
        }
    }
}

} // verus!
