//! The laws relating the printer, the parser and the evaluator: parsing a
//! printed document reproduces it, a literal line renders to its text plus
//! one newline, and the zero-copy quoted form agrees with the escaped scan
//! on backslash-free text.

use vstd::prelude::*;

use crate::ast::CommandModel;
use crate::ast::InsertModel;
use crate::ast::LineModel;
use crate::ast::PathModel;
use crate::ast::TemplateError;
use crate::eval::spec_render;
use crate::lex::decoded_escape;
use crate::lex::escaped_scan;
use crate::lex::is_escape_code;
use crate::lex::is_term_at;
use crate::lex::lemma_noescape_end_is;
use crate::lex::lemma_noescape_end_step;
use crate::lex::lemma_raw_end_is;
use crate::lex::noescape_end;
use crate::lex::stop_noescape;
use crate::parse::has_insert_at;
use crate::parse::lemma_ident_end_is;
use crate::parse::lemma_space_end_is;
use crate::parse::lemma_squote_end_is;
use crate::parse::spec_doc;
use crate::parse::spec_line;
use crate::parse::spec_line_end;
use crate::parse::spec_path;
use crate::parse::spec_var;
use crate::parse::stop_ident;
use crate::print::contains_char;
use crate::print::dotted_from;
use crate::print::dotted_tail;
use crate::print::is_print_special;
use crate::print::print_code;
use crate::print::print_doc_from;
use crate::print::spec_print;
use crate::print::spec_print_escaped;
use crate::print::spec_print_line;
use crate::print::spec_print_path;
use crate::print::wf_doc;
use crate::print::wf_ident;
use crate::print::wf_line;
use crate::print::wf_path;
use crate::print::wf_var;

verus! {

/// Parsing a printed dotted chain from its start consumes exactly the chain
/// and yields its identifiers, provided the first character after it (if
/// any) ends an identifier and is not a dot.
proof fn lemma_parse_printed_dotted(ids: Seq<Seq<char>>, k: int, s: Seq<char>, i: int)
    requires
        0 <= k < ids.len(),
        forall|m: int| k <= m < ids.len() ==> wf_ident(ids[m]),
        0 <= i,
        i + dotted_from(ids, k).len() <= s.len(),
        s.subrange(i, i + dotted_from(ids, k).len() as int) == dotted_from(ids, k),
        i + dotted_from(ids, k).len() == s.len() || (stop_ident(
            s[i + dotted_from(ids, k).len()],
        ) && s[i + dotted_from(ids, k).len()] != '.'),
    ensures
        spec_var(s, i) == Ok::<(Seq<Seq<char>>, int), TemplateError>(
            (ids.skip(k), i + dotted_from(ids, k).len()),
        ),
    decreases ids.len() - k,
{
    let pd = dotted_from(ids, k);
    let a = ids[k].len() as int;
    let b = i + pd.len();
    assert forall|j: int| i <= j < b implies s[j] == pd[j - i] by {
        assert(pd[j - i] == s.subrange(i, i + pd.len() as int)[j - i]);
    }
    assert(wf_ident(ids[k]));
    if k == ids.len() - 1 {
        assert(dotted_tail(ids, k + 1) =~= Seq::<char>::empty());
        assert(pd =~= ids[k]);
        assert(pd.len() == a);
        assert forall|j: int| i <= j < b implies !stop_ident(s[j]) by {
            assert(s[j] == pd[j - i]);
            assert(pd[j - i] == ids[k][j - i]);
        }
        lemma_ident_end_is(s, i, b);
        assert(s.subrange(i, b) =~= ids[k]);
        assert(seq![ids[k]] =~= ids.skip(k));
    } else {
        let pd2 = dotted_from(ids, k + 1);
        assert(dotted_tail(ids, k + 1) =~= seq!['.'] + pd2);
        assert(pd =~= ids[k] + (seq!['.'] + pd2));
        assert(pd.len() == a + 1 + pd2.len());
        assert forall|j: int| i <= j < i + a implies !stop_ident(s[j]) by {
            assert(s[j] == pd[j - i]);
            assert(pd[j - i] == ids[k][j - i]);
        }
        assert(pd[a] == (seq!['.'] + pd2)[0]);
        assert(s[i + a] == '.');
        lemma_ident_end_is(s, i, i + a);
        assert(s.subrange(i, i + a) =~= ids[k]);
        assert forall|m: int| 0 <= m < pd2.len() implies s.subrange(
            i + a + 1,
            i + a + 1 + pd2.len() as int,
        )[m] == pd2[m] by {
            assert(s[i + a + 1 + m] == pd[a + 1 + m]);
            assert(pd[a + 1 + m] == (seq!['.'] + pd2)[1 + m]);
        }
        assert(s.subrange(i + a + 1, i + a + 1 + pd2.len() as int) =~= pd2);
        lemma_parse_printed_dotted(ids, k + 1, s, i + a + 1);
        assert(spec_var(s, i + a + 1) == Ok::<(Seq<Seq<char>>, int), TemplateError>(
            (ids.skip(k + 1), b),
        ));
        assert(seq![ids[k]] + ids.skip(k + 1) =~= ids.skip(k));
    }
}

/// Scanning a printed escaped string decodes it back to the original text,
/// stopping at the closing quote.
proof fn lemma_parse_printed_escaped(t: Seq<char>, k: int, s: Seq<char>, i: int)
    requires
        0 <= k <= t.len(),
        0 <= i,
        i + spec_print_escaped(t, k).len() <= s.len(),
        s.subrange(i, i + spec_print_escaped(t, k).len() as int) == spec_print_escaped(t, k),
        i + spec_print_escaped(t, k).len() < s.len(),
        s[i + spec_print_escaped(t, k).len()] == '"',
    ensures
        escaped_scan(s, i) == Ok::<(Seq<char>, int), TemplateError>(
            (t.skip(k), i + spec_print_escaped(t, k).len()),
        ),
    decreases t.len() - k,
{
    let pe = spec_print_escaped(t, k);
    let b = i + pe.len();
    assert forall|j: int| i <= j < b implies s[j] == pe[j - i] by {
        assert(pe[j - i] == s.subrange(i, i + pe.len() as int)[j - i]);
    }
    if k == t.len() {
        assert(pe =~= Seq::<char>::empty());
        assert(s[i] == '"');
        assert(t.skip(k) =~= Seq::<char>::empty());
    } else {
        let c = t[k];
        let pe2 = spec_print_escaped(t, k + 1);
        if is_print_special(c) {
            assert(pe == seq!['\\', print_code(c)] + pe2);
            assert(pe.len() == 2 + pe2.len());
            assert(s[i] == pe[0]);
            assert(s[i] == '\\');
            assert(s[i + 1] == pe[1]);
            assert(s[i + 1] == print_code(c));
            assert(is_escape_code(print_code(c)));
            assert(decoded_escape(print_code(c)) == c);
            assert forall|m: int| 0 <= m < pe2.len() implies s.subrange(
                i + 2,
                i + 2 + pe2.len() as int,
            )[m] == pe2[m] by {
                assert(s[i + 2 + m] == pe[2 + m]);
            }
            assert(s.subrange(i + 2, i + 2 + pe2.len() as int) =~= pe2);
            lemma_parse_printed_escaped(t, k + 1, s, i + 2);
            assert(seq![c] + t.skip(k + 1) =~= t.skip(k));
        } else {
            assert(pe == seq![c] + pe2);
            assert(pe.len() == 1 + pe2.len());
            assert(s[i] == pe[0]);
            assert(s[i] == c);
            assert(c != '"' && c != '\n' && c != '\\');
            assert forall|m: int| 0 <= m < pe2.len() implies s.subrange(
                i + 1,
                i + 1 + pe2.len() as int,
            )[m] == pe2[m] by {
                assert(s[i + 1 + m] == pe[1 + m]);
            }
            assert(s.subrange(i + 1, i + 1 + pe2.len() as int) =~= pe2);
            lemma_parse_printed_escaped(t, k + 1, s, i + 1);
            assert(seq![c] + t.skip(k + 1) =~= t.skip(k));
        }
    }
}

/// Over a printed escaped string, the backslash-free scan stops at the first
/// escape's backslash, or — when the text needed no escapes — at the closing
/// quote.
proof fn lemma_noescape_over_escaped(t: Seq<char>, k: int, s: Seq<char>, i: int)
    requires
        0 <= k <= t.len(),
        0 <= i,
        i + spec_print_escaped(t, k).len() <= s.len(),
        s.subrange(i, i + spec_print_escaped(t, k).len() as int) == spec_print_escaped(t, k),
        i + spec_print_escaped(t, k).len() < s.len(),
        s[i + spec_print_escaped(t, k).len()] == '"',
    ensures
        (exists|m: int| k <= m < t.len() && is_print_special(t[m])) ==> noescape_end(s, i) < i
            + spec_print_escaped(t, k).len() && s[noescape_end(s, i)] == '\\',
        !(exists|m: int| k <= m < t.len() && is_print_special(t[m])) ==> noescape_end(s, i) == i
            + spec_print_escaped(t, k).len(),
    decreases t.len() - k,
{
    let pe = spec_print_escaped(t, k);
    let b = i + pe.len();
    assert forall|j: int| i <= j < b implies s[j] == pe[j - i] by {
        assert(pe[j - i] == s.subrange(i, i + pe.len() as int)[j - i]);
    }
    if k == t.len() {
        assert(pe =~= Seq::<char>::empty());
        assert(s[i] == '"');
        lemma_noescape_end_is(s, i, i);
    } else {
        let c = t[k];
        let pe2 = spec_print_escaped(t, k + 1);
        if is_print_special(c) {
            assert(pe == seq!['\\', print_code(c)] + pe2);
            assert(pe.len() == 2 + pe2.len());
            assert(s[i] == pe[0]);
            assert(s[i] == '\\');
            lemma_noescape_end_is(s, i, i);
            assert(i < b);
            assert(k <= k < t.len() && is_print_special(t[k]));
        } else {
            assert(pe == seq![c] + pe2);
            assert(pe.len() == 1 + pe2.len());
            assert(s[i] == pe[0]);
            assert(s[i] == c);
            assert(!stop_noescape(s[i]));
            lemma_noescape_end_step(s, i);
            assert forall|m: int| 0 <= m < pe2.len() implies s.subrange(
                i + 1,
                i + 1 + pe2.len() as int,
            )[m] == pe2[m] by {
                assert(s[i + 1 + m] == pe[1 + m]);
            }
            assert(s.subrange(i + 1, i + 1 + pe2.len() as int) =~= pe2);
            lemma_noescape_over_escaped(t, k + 1, s, i + 1);
            assert((exists|m: int| k + 1 <= m < t.len() && is_print_special(t[m])) <==> (exists|
                m: int,
            | k <= m < t.len() && is_print_special(t[m])));
        }
    }
}

/// Parsing a printed path operand consumes exactly it and yields the same
/// operand, variant included.
proof fn lemma_parse_printed_path(p: PathModel, s: Seq<char>, i: int)
    requires
        wf_path(p),
        0 <= i,
        i + spec_print_path(p).len() <= s.len(),
        s.subrange(i, i + spec_print_path(p).len() as int) == spec_print_path(p),
    ensures
        spec_path(s, i) == Ok::<(PathModel, int), TemplateError>(
            (p, i + spec_print_path(p).len()),
        ),
{
    let pp = spec_print_path(p);
    let b = i + pp.len();
    assert forall|j: int| i <= j < b implies s[j] == pp[j - i] by {
        assert(pp[j - i] == s.subrange(i, i + pp.len() as int)[j - i]);
    }
    match p {
        PathModel::Path(t) => {
            if contains_char(t, '\'') {
                assert(pp == seq!['"'] + t + seq!['"']);
                assert(pp.len() == t.len() + 2 as int);
                assert(s[i] == pp[0]);
                assert(s[i] == '"');
                assert(s[i] != '\'');
                assert forall|j: int| i + 1 <= j < i + 1 + t.len() implies !stop_noescape(
                    s[j],
                ) by {
                    assert(s[j] == pp[j - i]);
                    assert(pp[j - i] == t[j - i - 1]);
                    if s[j] == '"' {
                        assert(contains_char(t, '"'));
                    }
                    if s[j] == '\\' {
                        assert(contains_char(t, '\\'));
                    }
                    if s[j] == '\n' {
                        assert(contains_char(t, '\n'));
                    }
                }
                assert(s[i + 1 + t.len()] == pp[1 + t.len() as int]);
                assert(stop_noescape(s[i + 1 + t.len()]));
                lemma_noescape_end_is(s, i + 1, i + 1 + t.len() as int);
                assert(s.subrange(i + 1, i + 1 + t.len() as int) =~= t);
            } else {
                assert(pp == seq!['\''] + t + seq!['\'']);
                assert(pp.len() == t.len() + 2 as int);
                assert(s[i] == pp[0]);
                assert(s[i] == '\'');
                assert forall|j: int| i + 1 <= j < i + 1 + t.len() implies !crate::parse::stop_squote(
                    s[j],
                ) by {
                    assert(s[j] == pp[j - i]);
                    assert(pp[j - i] == t[j - i - 1]);
                    if s[j] == '\'' {
                        assert(contains_char(t, '\''));
                    }
                    if s[j] == '\n' {
                        assert(contains_char(t, '\n'));
                    }
                }
                assert(s[i + 1 + t.len()] == pp[1 + t.len() as int]);
                assert(s[i + 1 + t.len()] == '\'');
                lemma_squote_end_is(s, i + 1, i + 1 + t.len() as int);
                assert(s.subrange(i + 1, i + 1 + t.len() as int) =~= t);
            }
        },
        PathModel::PathBuf(t) => {
            let pe = spec_print_escaped(t, 0);
            assert(pp == seq!['"'] + pe + seq!['"']);
            assert(pp.len() == pe.len() + 2);
            assert(s[i] == pp[0]);
            assert(s[i] == '"');
            assert(s[i] != '\'');
            let bq = i + 1 + pe.len();
            assert(s[bq] == pp[1 + pe.len() as int]);
            assert(s[bq] == '"');
            assert forall|m: int| 0 <= m < pe.len() implies s.subrange(
                i + 1,
                i + 1 + pe.len() as int,
            )[m] == pe[m] by {
                assert(s[i + 1 + m] == pp[1 + m]);
            }
            assert(s.subrange(i + 1, i + 1 + pe.len() as int) =~= pe);
            lemma_noescape_over_escaped(t, 0, s, i + 1);
            if t.len() == 0 {
                assert(!(exists|m: int| 0 <= m < t.len() && is_print_special(t[m])));
                assert(noescape_end(s, i + 1) == i + 1);
            } else {
                assert(exists|m: int| 0 <= m < t.len() && is_print_special(t[m]));
                assert(s[noescape_end(s, i + 1)] == '\\');
                assert(s[noescape_end(s, i + 1)] != '"');
            }
            lemma_parse_printed_escaped(t, 0, s, i + 1);
            assert(t.skip(0) =~= t);
        },
    }
}

/// Parsing a printed line consumes exactly it and yields the same line,
/// provided a terminator or the end of input follows.
proof fn lemma_parse_printed_line(l: LineModel, s: Seq<char>, i: int)
    requires
        wf_line(l),
        0 <= i,
        i + spec_print_line(l).len() <= s.len(),
        s.subrange(i, i + spec_print_line(l).len() as int) == spec_print_line(l),
        i + spec_print_line(l).len() == s.len() || s[i + spec_print_line(l).len()] == '\n',
    ensures
        spec_line(s, i) == Ok::<(LineModel, int), TemplateError>(
            (l, i + spec_print_line(l).len()),
        ),
{
    let pl = spec_print_line(l);
    let b = i + pl.len();
    assert forall|j: int| i <= j < b implies s[j] == pl[j - i] by {
        assert(pl[j - i] == s.subrange(i, i + pl.len() as int)[j - i]);
    }
    match l {
        LineModel::Raw(t) => {
            assert(pl == seq!['+'] + t);
            assert(pl.len() == 1 + t.len());
            assert(s[i] == pl[0]);
            assert(s[i] == '+');
            assert(s[i] != ':');
            assert forall|j: int| i + 1 <= j < b implies !is_term_at(s, j) by {
                assert(s[j] == pl[j - i]);
                assert(pl[j - i] == t[j - i - 1]);
                assert(s[j] != '\n');
                if s[j] == '\r' && j + 1 < s.len() {
                    if j + 1 < b {
                        assert(s[j + 1] == pl[j + 1 - i]);
                        assert(pl[j + 1 - i] == t[j - i]);
                        assert(s[j + 1] != '\n');
                    } else {
                        assert(j == b - 1);
                        assert(t[t.len() - 1] == '\r');
                        assert(false);
                    }
                }
            }
            assert(b == s.len() || is_term_at(s, b));
            lemma_raw_end_is(s, i + 1, b);
            assert(s.subrange(i + 1, b) =~= t);
        },
        LineModel::Command(CommandModel::Insert(ins)) => {
            assert(s[i] == pl[0]);
            assert(s[i] == ':');
            assert(s[i + 1] == pl[1] && s[i + 1] == 'i');
            assert(s[i + 2] == pl[2] && s[i + 2] == 'n');
            assert(s[i + 3] == pl[3] && s[i + 3] == 's');
            assert(s[i + 4] == pl[4] && s[i + 4] == 'e');
            assert(s[i + 5] == pl[5] && s[i + 5] == 'r');
            assert(s[i + 6] == pl[6] && s[i + 6] == 't');
            assert(s[i + 7] == pl[7] && s[i + 7] == ' ');
            assert(has_insert_at(s, i + 1));
            assert(crate::parse::is_space(s[i + 7]));
            assert(s[i + 8] == pl[8]);
            match ins {
                InsertModel::Var(ids) => {
                    let pd = dotted_from(ids, 0);
                    assert(wf_var(ids));
                    assert(pl == seq![':', 'i', 'n', 's', 'e', 'r', 't', ' ', '$'] + pd);
                    assert(pl.len() == 9 + pd.len());
                    assert(s[i + 8] == '$');
                    assert(!crate::parse::is_space(s[i + 8]));
                    lemma_space_end_is(s, i + 7, i + 8);
                    assert forall|m: int| 0 <= m < pd.len() implies s.subrange(
                        i + 9,
                        i + 9 + pd.len() as int,
                    )[m] == pd[m] by {
                        assert(s[i + 9 + m] == pl[9 + m]);
                    }
                    assert(s.subrange(i + 9, i + 9 + pd.len() as int) =~= pd);
                    assert(i + 9 + pd.len() == b);
                    assert(b == s.len() || (stop_ident(s[b]) && s[b] != '.'));
                    lemma_parse_printed_dotted(ids, 0, s, i + 9);
                    assert(ids.skip(0) =~= ids);
                },
                InsertModel::Path(p) => {
                    let pp = spec_print_path(p);
                    assert(wf_path(p));
                    assert(pl == seq![':', 'i', 'n', 's', 'e', 'r', 't', ' '] + pp);
                    assert(pl.len() == 8 + pp.len());
                    assert(pp.len() >= 2) by {
                        match p {
                            PathModel::Path(t2) => {},
                            PathModel::PathBuf(t2) => {},
                        }
                    }
                    assert(s[i + 8] == pp[0]);
                    assert(s[i + 8] == '\'' || s[i + 8] == '"') by {
                        match p {
                            PathModel::Path(t2) => {},
                            PathModel::PathBuf(t2) => {},
                        }
                    }
                    assert(!crate::parse::is_space(s[i + 8]));
                    assert(s[i + 8] != '$');
                    lemma_space_end_is(s, i + 7, i + 8);
                    assert forall|m: int| 0 <= m < pp.len() implies s.subrange(
                        i + 8,
                        i + 8 + pp.len() as int,
                    )[m] == pp[m] by {
                        assert(s[i + 8 + m] == pl[8 + m]);
                    }
                    assert(s.subrange(i + 8, i + 8 + pp.len() as int) =~= pp);
                    lemma_parse_printed_path(p, s, i + 8);
                    assert(i + 8 + pp.len() == b);
                },
            }
        },
    }
}

/// Parsing the printed suffix of a document from line `k` on yields exactly
/// the remaining lines.
#[verifier::rlimit(60)]
proof fn lemma_parse_printed_doc(d: Seq<LineModel>, k: int, s: Seq<char>, i: int)
    requires
        wf_doc(d),
        0 <= k <= d.len(),
        0 <= i <= s.len(),
        s.subrange(i, s.len() as int) == print_doc_from(d, k),
    ensures
        spec_doc(s, i) == Ok::<Seq<LineModel>, TemplateError>(d.skip(k)),
    decreases d.len() - k,
{
    let pf = print_doc_from(d, k);
    assert(s.subrange(i, s.len() as int).len() == pf.len());
    assert(s.len() - i == pf.len());
    assert forall|j: int| i <= j < s.len() implies s[j] == pf[j - i] by {
        assert(pf[j - i] == s.subrange(i, s.len() as int)[j - i]);
    }
    if k == d.len() {
        assert(pf =~= Seq::<char>::empty());
        assert(i == s.len());
        assert(d.skip(k) =~= Seq::<LineModel>::empty());
    } else {
        let pl = spec_print_line(d[k]);
        let n = pl.len() as int;
        let rest = print_doc_from(d, k + 1);
        assert(pf == pl + seq!['\n'] + rest);
        assert(pf.len() == n + 1 + rest.len());
        assert forall|m: int| 0 <= m < n implies s.subrange(i, i + n)[m] == pl[m] by {
            assert(s[i + m] == pf[m]);
            assert(pf[m] == (pl + seq!['\n'])[m]);
        }
        assert(s.subrange(i, i + n) =~= pl);
        assert(s[i + n] == pf[n]);
        assert(pf[n] == (pl + seq!['\n'])[n]);
        assert(s[i + n] == '\n');
        assert(wf_line(d[k]));
        lemma_parse_printed_line(d[k], s, i);
        assert(spec_line(s, i) == Ok::<(LineModel, int), TemplateError>((d[k], i + n)));
        assert(spec_line_end(s, i + n) == Some(1int));
        assert forall|m: int| 0 <= m < rest.len() implies s.subrange(
            i + n + 1,
            s.len() as int,
        )[m] == rest[m] by {
            assert(s[i + n + 1 + m] == pf[n + 1 + m]);
        }
        assert(s.subrange(i + n + 1, s.len() as int) =~= rest);
        lemma_parse_printed_doc(d, k + 1, s, i + n + 1);
        assert(spec_doc(s, i + n + 1) == Ok::<Seq<LineModel>, TemplateError>(d.skip(k + 1)));
        assert(seq![d[k]] + d.skip(k + 1) =~= d.skip(k));
    }
}

/// LAW: printing any document the canonical printer supports and parsing
/// the result reproduces an equal sequence of lines.
pub proof fn lemma_print_parse_round_trip(d: Seq<LineModel>)
    requires
        wf_doc(d),
    ensures
        spec_doc(spec_print(d), 0) == Ok::<Seq<LineModel>, TemplateError>(d),
{
    let s = spec_print(d);
    assert(s.subrange(0, s.len() as int) =~= s);
    lemma_parse_printed_doc(d, 0, s, 0);
    assert(d.skip(0) =~= d);
}

/// LAW: a literal line `+<text>` followed by a newline, with no line
/// terminator inside `<text>` (in particular, `<text>` must not end in
/// `\r`, which would fuse with the `\n` into a terminator), parses to
/// exactly that literal line, and evaluating it yields `<text>` followed by
/// one newline, whatever the context.
pub proof fn lemma_literal_line(t: Seq<char>, content: Seq<char>, title: Seq<char>)
    requires
        forall|i: int| 0 <= i < t.len() ==> t[i] != '\n',
        t.len() > 0 ==> t[t.len() - 1] != '\r',
    ensures
        spec_doc(seq!['+'] + t + seq!['\n'], 0) == Ok::<Seq<LineModel>, TemplateError>(
            seq![LineModel::Raw(t)],
        ),
        spec_render(seq![LineModel::Raw(t)], content, title, Seq::empty()) == Ok::<
            Seq<char>,
            TemplateError,
        >(t + seq!['\n']),
{
    let d = seq![LineModel::Raw(t)];
    assert(wf_doc(d)) by {
        assert(d[0] == LineModel::Raw(t));
    }
    assert(spec_print(d) =~= seq!['+'] + t + seq!['\n']) by {
        assert(print_doc_from(d, 1) =~= Seq::<char>::empty());
        assert(spec_print_line(d[0]) == seq!['+'] + t);
    }
    lemma_print_parse_round_trip(d);
    assert(d.drop_first() =~= Seq::<LineModel>::empty());
    assert(spec_render(d.drop_first(), content, title, Seq::empty()) == Ok::<
        Seq<char>,
        TemplateError,
    >(Seq::empty()));
    assert(t + seq!['\n'] + Seq::<char>::empty() =~= t + seq!['\n']);
}

/// Scanning backslash-free text between the quotes returns it unchanged:
/// the escaped scan agrees with the verbatim fast path where both apply.
proof fn lemma_escaped_scan_plain(s: Seq<char>, i: int, b: int)
    requires
        0 <= i <= b < s.len(),
        forall|j: int| i <= j < b ==> !stop_noescape(s[j]),
        s[b] == '"',
    ensures
        escaped_scan(s, i) == Ok::<(Seq<char>, int), TemplateError>((s.subrange(i, b), b)),
    decreases b - i,
{
    if i == b {
        assert(s.subrange(i, b) =~= Seq::<char>::empty());
    } else {
        assert(!stop_noescape(s[i]));
        lemma_escaped_scan_plain(s, i + 1, b);
        assert(seq![s[i]] + s.subrange(i + 1, b) =~= s.subrange(i, b));
    }
}

/// LAW: a non-empty double-quoted path whose text holds no backslash (nor a
/// quote or newline, which could not be written bare) takes the zero-copy
/// parse alternative — the result is the verbatim `Path` variant — and the
/// escaped scan applied to the same text yields equal content.
pub proof fn lemma_zero_copy_fast_path(t: Seq<char>)
    requires
        t.len() > 0,
        forall|i: int| 0 <= i < t.len() ==> !stop_noescape(t[i]),
    ensures
        spec_path(seq!['"'] + t + seq!['"'], 0) == Ok::<(PathModel, int), TemplateError>(
            (PathModel::Path(t), t.len() + 2 as int),
        ),
        escaped_scan(seq!['"'] + t + seq!['"'], 1) == Ok::<(Seq<char>, int), TemplateError>(
            (t, t.len() + 1 as int),
        ),
{
    let s = seq!['"'] + t + seq!['"'];
    assert(s.len() == t.len() + 2 as int);
    assert(s[0] == '"');
    assert(s[1 + t.len() as int] == '"');
    assert forall|j: int| 1 <= j < 1 + t.len() implies !stop_noescape(s[j]) by {
        assert(s[j] == t[j - 1]);
    }
    assert(s[0] != '\'');
    lemma_noescape_end_is(s, 1, 1 + t.len() as int);
    assert(s.subrange(1, 1 + t.len() as int) =~= t);
    lemma_escaped_scan_plain(s, 1, 1 + t.len() as int);
}

} // verus!
