//! A canonical pretty-printer for parsed documents, and the laws tying it to
//! the parser: printing a well-formed document and parsing the result gives
//! back an equal document.

use vstd::prelude::*;

use crate::ast::CommandModel;
use crate::ast::InsertModel;
use crate::ast::LineModel;
use crate::ast::PathModel;
use crate::ast::Command;
use crate::ast::Insert;
use crate::ast::Line;
use crate::ast::Path;
use crate::ast::Var;
use crate::parse::lines_view;
use crate::parse::stop_ident;

verus! {

/// A character occurs in `t`.
pub open spec fn contains_char(t: Seq<char>, c: char) -> bool {
    exists|i: int| 0 <= i < t.len() && t[i] == c
}

/// Characters the canonical printer writes as escapes inside double quotes.
pub open spec fn is_print_special(c: char) -> bool {
    c == '"' || c == '\\' || c == '\n' || c == '\r' || c == '\t'
}

/// Literal text that prints to a line of its own: free of `\n`, and not
/// ending in `\r` (a trailing `\r` would fuse with the printed terminator).
pub open spec fn wf_raw(t: Seq<char>) -> bool {
    &&& forall|i: int| 0 <= i < t.len() ==> t[i] != '\n'
    &&& (t.len() > 0 ==> t[t.len() - 1] != '\r')
}

/// A printable identifier: non-empty, free of the characters that end one.
pub open spec fn wf_ident(t: Seq<char>) -> bool {
    t.len() > 0 && forall|i: int| 0 <= i < t.len() ==> !stop_ident(t[i])
}

/// A printable variable path: at least one identifier, all printable.
pub open spec fn wf_var(ids: Seq<Seq<char>>) -> bool {
    ids.len() > 0 && forall|i: int| 0 <= i < ids.len() ==> wf_ident(ids[i])
}

/// A printable path operand. A verbatim path must fit one of the two quoted
/// forms that parse back without decoding; a decoded path must print with at
/// least one escape (or be empty), else re-parsing would take the verbatim
/// fast path instead.
pub open spec fn wf_path(p: PathModel) -> bool {
    match p {
        PathModel::Path(t) => {
            &&& !contains_char(t, '\n')
            &&& (contains_char(t, '\'') ==> t.len() > 0 && !contains_char(t, '"')
                && !contains_char(t, '\\'))
        },
        PathModel::PathBuf(t) => t.len() == 0 || exists|i: int|
            0 <= i < t.len() && is_print_special(t[i]),
    }
}

pub open spec fn wf_line(l: LineModel) -> bool {
    match l {
        LineModel::Raw(t) => wf_raw(t),
        LineModel::Command(CommandModel::Insert(InsertModel::Var(ids))) => wf_var(ids),
        LineModel::Command(CommandModel::Insert(InsertModel::Path(p))) => wf_path(p),
    }
}

/// A document the canonical printer can reproduce exactly.
pub open spec fn wf_doc(d: Seq<LineModel>) -> bool {
    forall|i: int| 0 <= i < d.len() ==> wf_line(d[i])
}

/// The escape code the printer writes after a backslash for a special
/// character.
pub open spec fn print_code(c: char) -> char {
    if c == '\n' {
        'n'
    } else if c == '\t' {
        't'
    } else if c == '\r' {
        'r'
    } else {
        c
    }
}

/// The escaped form of `t` from index `k` on: special characters become
/// backslash escapes, everything else is copied.
pub open spec fn spec_print_escaped(t: Seq<char>, k: int) -> Seq<char>
    decreases t.len() - k,
{
    if k < 0 || k >= t.len() {
        Seq::empty()
    } else if is_print_special(t[k]) {
        seq!['\\', print_code(t[k])] + spec_print_escaped(t, k + 1)
    } else {
        seq![t[k]] + spec_print_escaped(t, k + 1)
    }
}

/// The printed form of a path operand: single quotes for verbatim text
/// without a single quote, plain double quotes for verbatim text with one,
/// and escaped double quotes for decoded text.
pub open spec fn spec_print_path(p: PathModel) -> Seq<char> {
    match p {
        PathModel::Path(t) => if contains_char(t, '\'') {
            seq!['"'] + t + seq!['"']
        } else {
            seq!['\''] + t + seq!['\'']
        },
        PathModel::PathBuf(t) => seq!['"'] + spec_print_escaped(t, 0) + seq!['"'],
    }
}

/// The identifiers after the first, each preceded by a dot, from index `k`.
pub open spec fn dotted_tail(ids: Seq<Seq<char>>, k: int) -> Seq<char>
    decreases ids.len() - k,
{
    if k < 0 || k >= ids.len() {
        Seq::empty()
    } else {
        seq!['.'] + ids[k] + dotted_tail(ids, k + 1)
    }
}

/// The dotted chain from identifier `k` on: `k`'s text, then each later
/// identifier preceded by a dot.
pub open spec fn dotted_from(ids: Seq<Seq<char>>, k: int) -> Seq<char> {
    if k < 0 || k >= ids.len() {
        Seq::empty()
    } else {
        ids[k] + dotted_tail(ids, k + 1)
    }
}

/// A dotted variable path as written in source.
pub open spec fn spec_print_dotted(ids: Seq<Seq<char>>) -> Seq<char> {
    if ids.len() == 0 {
        Seq::empty()
    } else {
        dotted_from(ids, 0)
    }
}

/// The printed form of one line, without its terminator.
pub open spec fn spec_print_line(l: LineModel) -> Seq<char> {
    match l {
        LineModel::Raw(t) => seq!['+'] + t,
        LineModel::Command(CommandModel::Insert(InsertModel::Var(ids))) => seq![
            ':',
            'i',
            'n',
            's',
            'e',
            'r',
            't',
            ' ',
            '$',
        ] + spec_print_dotted(ids),
        LineModel::Command(CommandModel::Insert(InsertModel::Path(p))) => seq![
            ':',
            'i',
            'n',
            's',
            'e',
            'r',
            't',
            ' ',
        ] + spec_print_path(p),
    }
}

/// The printed document from line `k` on: each line followed by `\n`.
pub open spec fn print_doc_from(d: Seq<LineModel>, k: int) -> Seq<char>
    decreases d.len() - k,
{
    if k < 0 || k >= d.len() {
        Seq::empty()
    } else {
        spec_print_line(d[k]) + seq!['\n'] + print_doc_from(d, k + 1)
    }
}

/// The canonical source form of a document.
pub open spec fn spec_print(d: Seq<LineModel>) -> Seq<char> {
    print_doc_from(d, 0)
}

fn contains(s: &str, c: char) -> (r: bool)
    ensures
        r == contains_char(s@, c),
{
    let len = s.unicode_len();
    let mut i: usize = 0;
    loop
        invariant
            0 <= i <= len,
            len == s@.len(),
            forall|j: int| 0 <= j < i ==> s@[j] != c,
        decreases len - i,
    {
        if i >= len {
            proof {
                assert(!contains_char(s@, c));
            }
            return false;
        }
        if s.get_char(i) == c {
            return true;
        }
        i = i + 1;
    }
}

fn print_escaped(t: &str) -> (r: String)
    ensures
        r@ == spec_print_escaped(t@, 0),
{
    let len = t.unicode_len();
    let mut out = String::new();
    let mut k: usize = 0;
    loop
        invariant
            0 <= k <= len,
            len == t@.len(),
            spec_print_escaped(t@, 0) == out@ + spec_print_escaped(t@, k as int),
        decreases len - k,
    {
        if k >= len {
            proof {
                assert(out@ + spec_print_escaped(t@, k as int) =~= out@);
            }
            return out;
        }
        let ghost out0 = out@;
        let c = t.get_char(k);
        if c == '"' || c == '\\' || c == '\n' || c == '\r' || c == '\t' {
            if c == '\n' {
                out.append("\\n");
                proof {
                    reveal_strlit("\\n");
                }
            } else if c == '\t' {
                out.append("\\t");
                proof {
                    reveal_strlit("\\t");
                }
            } else if c == '\r' {
                out.append("\\r");
                proof {
                    reveal_strlit("\\r");
                }
            } else if c == '\\' {
                out.append("\\\\");
                proof {
                    reveal_strlit("\\\\");
                }
            } else {
                out.append("\\\"");
                proof {
                    reveal_strlit("\\\"");
                }
            }
            proof {
                assert(out@ =~= out0 + seq!['\\', print_code(t@[k as int])]);
                assert(out0 + (seq!['\\', print_code(t@[k as int])] + spec_print_escaped(
                    t@,
                    k + 1,
                )) =~= out@ + spec_print_escaped(t@, k + 1));
            }
        } else {
            let piece = t.substring_char(k, k + 1);
            out.append(piece);
            proof {
                assert(piece@ =~= seq![t@[k as int]]);
                assert(out@ =~= out0 + seq![t@[k as int]]);
                assert(out0 + (seq![t@[k as int]] + spec_print_escaped(t@, k + 1)) =~= out@
                    + spec_print_escaped(t@, k + 1));
            }
        }
        k = k + 1;
    }
}

fn print_path(p: &Path) -> (r: String)
    ensures
        r@ == spec_print_path(p@),
{
    match p {
        Path::Path(t) => {
            if contains(t.as_str(), '\'') {
                let mut out = String::from_str("\"");
                out.append(t.as_str());
                out.append("\"");
                proof {
                    reveal_strlit("\"");
                    assert(out@ =~= seq!['"'] + t@ + seq!['"']);
                }
                out
            } else {
                let mut out = String::from_str("'");
                out.append(t.as_str());
                out.append("'");
                proof {
                    reveal_strlit("'");
                    assert(out@ =~= seq!['\''] + t@ + seq!['\'']);
                }
                out
            }
        },
        Path::PathBuf(t) => {
            let mut out = String::from_str("\"");
            out.append(print_escaped(t.as_str()).as_str());
            out.append("\"");
            proof {
                reveal_strlit("\"");
                assert(out@ =~= seq!['"'] + spec_print_escaped(t@, 0) + seq!['"']);
            }
            out
        },
    }
}

fn print_dotted(v: &Var) -> (r: String)
    requires
        v.0@.len() > 0,
    ensures
        r@ == spec_print_dotted(v@),
{
    let n = v.0.len();
    let mut out = String::from_str(v.0[0].0.as_str());
    let mut k: usize = 1;
    proof {
        assert(v@[0] == v.0@[0]@);
        assert(v@.len() == n);
    }
    while k < n
        invariant
            1 <= k <= n,
            n == v.0@.len(),
            n == v@.len(),
            spec_print_dotted(v@) == out@ + dotted_tail(v@, k as int),
        decreases n - k,
    {
        let ghost out0 = out@;
        out.append(".");
        out.append(v.0[k].0.as_str());
        proof {
            reveal_strlit(".");
            assert(v@[k as int] == v.0@[k as int]@);
            assert(out@ =~= out0 + seq!['.'] + v@[k as int]);
            assert(out0 + (seq!['.'] + v@[k as int] + dotted_tail(v@, k + 1)) =~= out@
                + dotted_tail(v@, k + 1));
        }
        k = k + 1;
    }
    proof {
        assert(out@ + dotted_tail(v@, k as int) =~= out@);
    }
    out
}

fn print_line(l: &Line) -> (r: String)
    ensures
        r@ == spec_print_line(l@),
{
    match l {
        Line::Raw(t) => {
            let mut out = String::from_str("+");
            out.append(t.as_str());
            proof {
                reveal_strlit("+");
                assert(out@ =~= seq!['+'] + t@);
            }
            out
        },
        Line::Command(Command::Insert(ins)) => {
            let mut out = String::from_str(":insert ");
            proof {
                reveal_strlit(":insert ");
            }
            match ins {
                Insert::Var(v) => {
                    let ghost out0 = out@;
                    if v.0.len() == 0 {
                        out.append("$");
                        proof {
                            reveal_strlit("$");
                            assert(v@.len() == v.0@.len());
                            assert(spec_print_dotted(v@) =~= Seq::<char>::empty());
                            assert(out@ =~= seq![':', 'i', 'n', 's', 'e', 'r', 't', ' ', '$']
                                + spec_print_dotted(v@));
                        }
                        out
                    } else {
                        out.append("$");
                        out.append(print_dotted(v).as_str());
                        proof {
                            reveal_strlit("$");
                            assert(out@ =~= seq![':', 'i', 'n', 's', 'e', 'r', 't', ' ', '$']
                                + spec_print_dotted(v@));
                        }
                        out
                    }
                },
                Insert::Path(p) => {
                    out.append(print_path(p).as_str());
                    proof {
                        assert(out@ =~= seq![':', 'i', 'n', 's', 'e', 'r', 't', ' ']
                            + spec_print_path(p@));
                    }
                    out
                },
            }
        },
    }
}

/// Print a parsed document back to source form: each line in canonical
/// spelling, terminated by `\n`.
pub fn print_lines(doc: &Vec<Line>) -> (r: String)
    ensures
        r@ == spec_print(lines_view(doc@)),
{
    let ghost docv = lines_view(doc@);
    let n = doc.len();
    let mut out = String::new();
    let mut k: usize = 0;
    proof {
        assert(docv.len() == n);
    }
    while k < n
        invariant
            0 <= k <= n,
            n == doc@.len(),
            docv == lines_view(doc@),
            docv.len() == n,
            spec_print(docv) == out@ + print_doc_from(docv, k as int),
        decreases n - k,
    {
        let ghost out0 = out@;
        out.append(print_line(&doc[k]).as_str());
        out.append("\n");
        proof {
            reveal_strlit("\n");
            assert(docv[k as int] == doc@[k as int]@);
            assert(out@ =~= out0 + spec_print_line(docv[k as int]) + seq!['\n']);
            assert(out0 + (spec_print_line(docv[k as int]) + seq!['\n'] + print_doc_from(
                docv,
                k + 1,
            )) =~= out@ + print_doc_from(docv, k + 1));
        }
        k = k + 1;
    }
    proof {
        assert(out@ + print_doc_from(docv, k as int) =~= out@);
    }
    out
}

} // verus!
