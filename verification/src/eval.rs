//! The evaluator: renders a parsed document against a per-content-file
//! context. Literal lines are emitted verbatim; path inserts emit the text of
//! the referenced file, which the caller reads beforehand (one entry per path
//! insert, in document order); variable inserts resolve `self.content` and
//! `self.title` against the context and refuse anything else.

use vstd::prelude::*;

use crate::ast::CommandModel;
use crate::ast::InsertModel;
use crate::ast::LineModel;
use crate::ast::TemplateError;
use crate::ast::Command;
use crate::ast::Insert;
use crate::ast::Line;
use crate::ast::Var;
use crate::parse::lines_view;

verus! {

/// The data a document is evaluated against: where the template file lives
/// (path inserts are resolved relative to its directory), which content file
/// is being rendered, that file's text, and the page title.
pub struct Context {
    pub template_path: String,
    pub source_file_path: String,
    pub source_file: String,
    pub source_title: String,
}

/// Resolution of a variable path: `self.content` is the content-file text,
/// `self.title` the context title, and nothing else resolves.
pub open spec fn spec_eval_var(
    ids: Seq<Seq<char>>,
    content: Seq<char>,
    title: Seq<char>,
) -> Option<Seq<char>> {
    if ids.len() == 2 && ids[0] == "self"@ && ids[1] == "content"@ {
        Some(content)
    } else if ids.len() == 2 && ids[0] == "self"@ && ids[1] == "title"@ {
        Some(title)
    } else {
        None
    }
}

/// The texts of the path-insert operands of a document, in document order.
pub open spec fn path_inserts(d: Seq<LineModel>) -> Seq<Seq<char>>
    decreases d.len(),
{
    if d.len() == 0 {
        Seq::empty()
    } else {
        let rest = path_inserts(d.drop_first());
        match d[0] {
            LineModel::Command(CommandModel::Insert(InsertModel::Path(p))) => seq![p.text()]
                + rest,
            _ => rest,
        }
    }
}

/// What rendering a document produces: every line's value followed by one
/// newline, in document order. `inserts` holds the text of each path-insert
/// file, in document order; an unresolvable variable path stops the render
/// with the first error.
pub open spec fn spec_render(
    d: Seq<LineModel>,
    content: Seq<char>,
    title: Seq<char>,
    inserts: Seq<Seq<char>>,
) -> Result<Seq<char>, TemplateError>
    decreases d.len(),
{
    if d.len() == 0 {
        Ok(Seq::empty())
    } else {
        let head: Result<Seq<char>, TemplateError> = match d[0] {
            LineModel::Raw(t) => Ok(t),
            LineModel::Command(CommandModel::Insert(InsertModel::Path(_))) => Ok(inserts[0]),
            LineModel::Command(CommandModel::Insert(InsertModel::Var(ids))) => match spec_eval_var(
                ids,
                content,
                title,
            ) {
                Some(v) => Ok(v),
                None => Err(TemplateError::UnknownVariable),
            },
        };
        let tail_inserts = match d[0] {
            LineModel::Command(CommandModel::Insert(InsertModel::Path(_))) => inserts.drop_first(),
            _ => inserts,
        };
        match head {
            Err(er) => Err(er),
            Ok(v) => match spec_render(d.drop_first(), content, title, tail_inserts) {
                Ok(r) => Ok(v + seq!['\n'] + r),
                Err(er) => Err(er),
            },
        }
    }
}

/// The spec-level image of a list of insert-file texts.
pub open spec fn texts_view(v: Seq<String>) -> Seq<Seq<char>> {
    v.map_values(|s: String| s@)
}

/// Character-for-character string equality.
pub fn str_eq(a: &str, b: &str) -> (r: bool)
    ensures
        r == (a@ == b@),
{
    let la = a.unicode_len();
    let lb = b.unicode_len();
    if la != lb {
        proof {
            assert(a@.len() != b@.len());
        }
        return false;
    }
    let mut i: usize = 0;
    loop
        invariant
            i <= la,
            la == a@.len(),
            lb == b@.len(),
            la == lb,
            forall|k: int| 0 <= k < i ==> a@[k] == b@[k],
        decreases la - i,
    {
        if i >= la {
            proof {
                assert(a@ =~= b@);
            }
            return true;
        }
        if a.get_char(i) != b.get_char(i) {
            proof {
                assert(a@[i as int] != b@[i as int]);
            }
            return false;
        }
        i = i + 1;
    }
}

/// Resolve a variable path against the context. Exactly `self.content` and
/// `self.title` resolve; any other path is an unknown variable, a fatal
/// condition with no default substitution.
pub fn evaluate(v: &Var, context: &Context) -> (r: Result<String, TemplateError>)
    ensures
        match r {
            Ok(t) => spec_eval_var(v@, context.source_file@, context.source_title@) == Some(t@),
            Err(er) => spec_eval_var(v@, context.source_file@, context.source_title@) is None && er
                == TemplateError::UnknownVariable,
        },
{
    proof {
        assert(v@.len() == v.0@.len());
    }
    if v.0.len() == 2 {
        proof {
            assert(v@[0] == v.0@[0]@);
            assert(v@[1] == v.0@[1]@);
        }
        if str_eq(v.0[0].0.as_str(), "self") {
            if str_eq(v.0[1].0.as_str(), "content") {
                return Ok(context.source_file.clone());
            }
            if str_eq(v.0[1].0.as_str(), "title") {
                return Ok(context.source_title.clone());
            }
        }
    }
    Err(TemplateError::UnknownVariable)
}

/// The path-insert operands of a parsed document, in document order: the
/// paths whose files the caller must read before evaluating.
pub fn insert_paths(template_parsed: &Vec<Line>) -> (r: Vec<String>)
    ensures
        texts_view(r@) == path_inserts(lines_view(template_parsed@)),
{
    let ghost docv = lines_view(template_parsed@);
    let n = template_parsed.len();
    let mut acc: Vec<String> = Vec::new();
    let mut li: usize = 0;
    proof {
        assert(docv.skip(0) =~= docv);
        assert(texts_view(acc@) + path_inserts(docv) =~= path_inserts(docv));
    }
    while li < n
        invariant
            li <= n,
            n == template_parsed@.len(),
            docv == lines_view(template_parsed@),
            path_inserts(docv) == texts_view(acc@) + path_inserts(docv.skip(li as int)),
        decreases n - li,
    {
        let ghost acc0 = acc@;
        let ghost d = docv.skip(li as int);
        proof {
            assert(d[0] == docv[li as int]);
            assert(docv[li as int] == template_parsed@[li as int]@);
            assert(d.drop_first() =~= docv.skip(li + 1));
        }
        match &template_parsed[li] {
            Line::Command(Command::Insert(Insert::Path(p))) => {
                let t = String::from_str(p.as_str());
                acc.push(t);
                proof {
                    assert(texts_view(acc@) =~= texts_view(acc0) + seq![p@.text()]);
                    assert(path_inserts(d) == seq![p@.text()] + path_inserts(d.drop_first()));
                    assert(texts_view(acc0) + (seq![p@.text()] + path_inserts(docv.skip(li + 1)))
                        =~= (texts_view(acc0) + seq![p@.text()]) + path_inserts(
                        docv.skip(li + 1),
                    ));
                }
            },
            _ => {
                proof {
                    assert(path_inserts(d) == path_inserts(d.drop_first()));
                }
            },
        }
        li = li + 1;
    }
    proof {
        assert(docv.skip(n as int) =~= Seq::<LineModel>::empty());
        assert(path_inserts(docv.skip(n as int)) =~= Seq::<Seq<char>>::empty());
        assert(texts_view(acc@) + Seq::<Seq<char>>::empty() =~= texts_view(acc@));
    }
    acc
}

/// Render a parsed document. `inserts` must hold the text of each
/// path-insert file, one entry per path insert in document order — see
/// [`insert_paths`]. The output is each line's value followed by one newline;
/// the first unresolvable variable stops the render.
pub fn apply_template(template_parsed: &Vec<Line>, context: &Context, inserts: &Vec<String>) -> (r:
    Result<String, TemplateError>)
    requires
        inserts@.len() == path_inserts(lines_view(template_parsed@)).len(),
    ensures
        match r {
            Ok(out) => spec_render(
                lines_view(template_parsed@),
                context.source_file@,
                context.source_title@,
                texts_view(inserts@),
            ) == Ok::<Seq<char>, TemplateError>(out@),
            Err(er) => spec_render(
                lines_view(template_parsed@),
                context.source_file@,
                context.source_title@,
                texts_view(inserts@),
            ) == Err::<Seq<char>, TemplateError>(er),
        },
{
    let ghost docv = lines_view(template_parsed@);
    let ghost c = context.source_file@;
    let ghost t = context.source_title@;
    let ghost iv = texts_view(inserts@);
    let n = template_parsed.len();
    let ni = inserts.len();
    let mut out = String::new();
    let mut li: usize = 0;
    let mut pi: usize = 0;
    proof {
        assert(docv.skip(0) =~= docv);
        assert(iv.skip(0) =~= iv);
    }
    while li < n
        invariant
            li <= n,
            pi <= ni,
            ni == inserts@.len(),
            n == template_parsed@.len(),
            docv == lines_view(template_parsed@),
            c == context.source_file@,
            t == context.source_title@,
            iv == texts_view(inserts@),
            pi + path_inserts(docv.skip(li as int)).len() == iv.len(),
            spec_render(docv, c, t, iv) == match spec_render(
                docv.skip(li as int),
                c,
                t,
                iv.skip(pi as int),
            ) {
                Ok(rest) => Ok::<Seq<char>, TemplateError>(out@ + rest),
                Err(er) => Err::<Seq<char>, TemplateError>(er),
            },
        decreases n - li,
    {
        let ghost out0 = out@;
        let ghost d = docv.skip(li as int);
        let ghost di = iv.skip(pi as int);
        proof {
            assert(d[0] == docv[li as int]);
            assert(docv[li as int] == template_parsed@[li as int]@);
            assert(d.drop_first() =~= docv.skip(li + 1));
            assert(iv.len() == inserts@.len());
        }
        match &template_parsed[li] {
            Line::Raw(rtext) => {
                out.append(rtext.as_str());
                out.append("\n");
                proof {
                    reveal_strlit("\n");
                    assert(out@ =~= out0 + rtext@ + seq!['\n']);
                    assert(spec_render(d, c, t, di) == match spec_render(d.drop_first(), c, t, di) {
                        Ok(r2) => Ok::<Seq<char>, TemplateError>(rtext@ + seq!['\n'] + r2),
                        Err(er) => Err::<Seq<char>, TemplateError>(er),
                    });
                    match spec_render(d.drop_first(), c, t, di) {
                        Ok(r2) => {
                            assert(out0 + (rtext@ + seq!['\n'] + r2) =~= out@ + r2);
                        },
                        Err(_) => {},
                    }
                }
            },
            Line::Command(Command::Insert(Insert::Path(_p))) => {
                proof {
                    assert(path_inserts(d) == seq![_p@.text()] + path_inserts(d.drop_first()));
                    assert(path_inserts(d).len() >= 1);
                    assert(pi < iv.len());
                    assert(di[0] == iv[pi as int]);
                    assert(iv[pi as int] == inserts@[pi as int]@);
                    assert(di.drop_first() =~= iv.skip(pi + 1));
                }
                let itext = &inserts[pi];
                out.append(itext.as_str());
                out.append("\n");
                pi = pi + 1;
                proof {
                    reveal_strlit("\n");
                    assert(out@ =~= out0 + itext@ + seq!['\n']);
                    assert(spec_render(d, c, t, di) == match spec_render(
                        d.drop_first(),
                        c,
                        t,
                        di.drop_first(),
                    ) {
                        Ok(r2) => Ok::<Seq<char>, TemplateError>(itext@ + seq!['\n'] + r2),
                        Err(er) => Err::<Seq<char>, TemplateError>(er),
                    });
                    match spec_render(d.drop_first(), c, t, di.drop_first()) {
                        Ok(r2) => {
                            assert(out0 + (itext@ + seq!['\n'] + r2) =~= out@ + r2);
                        },
                        Err(_) => {},
                    }
                }
            },
            Line::Command(Command::Insert(Insert::Var(v))) => {
                match evaluate(v, context) {
                    Err(er) => {
                        proof {
                            assert(spec_render(d, c, t, di) == Err::<Seq<char>, TemplateError>(
                                TemplateError::UnknownVariable,
                            ));
                        }
                        return Err(er);
                    },
                    Ok(val) => {
                        out.append(val.as_str());
                        out.append("\n");
                        proof {
                            reveal_strlit("\n");
                            assert(out@ =~= out0 + val@ + seq!['\n']);
                            assert(spec_render(d, c, t, di) == match spec_render(
                                d.drop_first(),
                                c,
                                t,
                                di,
                            ) {
                                Ok(r2) => Ok::<Seq<char>, TemplateError>(val@ + seq!['\n'] + r2),
                                Err(er) => Err::<Seq<char>, TemplateError>(er),
                            });
                            match spec_render(d.drop_first(), c, t, di) {
                                Ok(r2) => {
                                    assert(out0 + (val@ + seq!['\n'] + r2) =~= out@ + r2);
                                },
                                Err(_) => {},
                            }
                        }
                    },
                }
            },
        }
        li = li + 1;
    }
    proof {
        assert(docv.skip(n as int) =~= Seq::<LineModel>::empty());
        assert(spec_render(docv.skip(n as int), c, t, iv.skip(pi as int)) == Ok::<
            Seq<char>,
            TemplateError,
        >(Seq::empty()));
        assert(out@ + Seq::<char>::empty() =~= out@);
    }
    Ok(out)
}

} // verus!
