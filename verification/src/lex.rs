//! Lexical primitives: character scanning up to a stop character, the escape
//! decoder, and the escaped-string scanner that rebuilds decoded text.

use vstd::prelude::*;

use crate::ast::TemplateError;

verus! {

/// Index `i` starts a line terminator: `\n` itself, or `\r` directly
/// followed by `\n`.
pub open spec fn is_term_at(s: Seq<char>, i: int) -> bool {
    0 <= i < s.len() && (s[i] == '\n' || (s[i] == '\r' && i + 1 < s.len() && s[i + 1] == '\n'))
}

/// The first index at or after `i` whose character satisfies `stop`, or the
/// end of `s` if none does.
pub open spec fn scan_stop(s: Seq<char>, i: int, stop: spec_fn(char) -> bool) -> int
    decreases s.len() - i,
{
    if i < s.len() && !stop(s[i]) {
        scan_stop(s, i + 1, stop)
    } else {
        i
    }
}

pub proof fn lemma_scan_stop_bounds(s: Seq<char>, i: int, stop: spec_fn(char) -> bool)
    requires
        0 <= i <= s.len(),
    ensures
        i <= scan_stop(s, i, stop) <= s.len(),
        forall|j: int| i <= j < scan_stop(s, i, stop) ==> !stop(s[j]),
        scan_stop(s, i, stop) == s.len() || stop(s[scan_stop(s, i, stop)]),
    decreases s.len() - i,
{
    if i < s.len() && !stop(s[i]) {
        lemma_scan_stop_bounds(s, i + 1, stop);
    }
}

/// Scanning stops exactly at `b` when nothing before `b` stops it and `b`
/// either stops it or ends the text.
pub proof fn lemma_scan_stop_is(s: Seq<char>, i: int, b: int, stop: spec_fn(char) -> bool)
    requires
        0 <= i <= b <= s.len(),
        forall|j: int| i <= j < b ==> !stop(s[j]),
        b == s.len() || stop(s[b]),
    ensures
        scan_stop(s, i, stop) == b,
    decreases b - i,
{
    if i < b {
        lemma_scan_stop_is(s, i + 1, b, stop);
    }
}

/// The first index at or after `i` that starts a line terminator, or the end
/// of `s`: the extent of literal text on a `+` line.
pub open spec fn raw_end(s: Seq<char>, i: int) -> int
    decreases s.len() - i,
{
    if i < s.len() && !is_term_at(s, i) {
        raw_end(s, i + 1)
    } else {
        i
    }
}

pub proof fn lemma_raw_end_bounds(s: Seq<char>, i: int)
    requires
        0 <= i <= s.len(),
    ensures
        i <= raw_end(s, i) <= s.len(),
        forall|j: int| i <= j < raw_end(s, i) ==> !is_term_at(s, j),
        raw_end(s, i) == s.len() || is_term_at(s, raw_end(s, i)),
    decreases s.len() - i,
{
    if i < s.len() && !is_term_at(s, i) {
        lemma_raw_end_bounds(s, i + 1);
    }
}

pub proof fn lemma_raw_end_is(s: Seq<char>, i: int, b: int)
    requires
        0 <= i <= b <= s.len(),
        forall|j: int| i <= j < b ==> !is_term_at(s, j),
        b == s.len() || is_term_at(s, b),
    ensures
        raw_end(s, i) == b,
    decreases b - i,
{
    if i < b {
        lemma_raw_end_is(s, i + 1, b);
    }
}

/// Stop characters of the double-quoted fast-path scan: quote, backslash, or
/// the start of a line terminator.
pub open spec fn stop_noescape(c: char) -> bool {
    c == '"' || c == '\\' || c == '\n'
}

/// End of a run of characters free of quote, backslash and newline.
pub open spec fn noescape_end(s: Seq<char>, i: int) -> int {
    scan_stop(s, i, |c: char| stop_noescape(c))
}

pub proof fn lemma_noescape_end_bounds(s: Seq<char>, i: int)
    requires
        0 <= i <= s.len(),
    ensures
        i <= noescape_end(s, i) <= s.len(),
        forall|j: int| i <= j < noescape_end(s, i) ==> !stop_noescape(s[j]),
        noescape_end(s, i) == s.len() || stop_noescape(s[noescape_end(s, i)]),
{
    lemma_scan_stop_bounds(s, i, |c: char| stop_noescape(c));
}

pub proof fn lemma_noescape_end_is(s: Seq<char>, i: int, b: int)
    requires
        0 <= i <= b <= s.len(),
        forall|j: int| i <= j < b ==> !stop_noescape(s[j]),
        b == s.len() || stop_noescape(s[b]),
    ensures
        noescape_end(s, i) == b,
{
    lemma_scan_stop_is(s, i, b, |c: char| stop_noescape(c));
}

pub proof fn lemma_noescape_end_step(s: Seq<char>, i: int)
    requires
        0 <= i < s.len(),
        !stop_noescape(s[i]),
    ensures
        noescape_end(s, i) == noescape_end(s, i + 1),
{
}

/// Whether `c` is a recognized escape code, written after a backslash.
pub open spec fn is_escape_code(c: char) -> bool {
    c == 'n' || c == 't' || c == 'r' || c == '\\' || c == '\'' || c == '"'
}

/// The character an escape code stands for; unconstrained use on anything
/// but a recognized code is guarded by [`is_escape_code`].
pub open spec fn decoded_escape(c: char) -> char {
    if c == 'n' {
        '\n'
    } else if c == 't' {
        '\t'
    } else if c == 'r' {
        '\r'
    } else {
        c
    }
}

/// Decode one escape code: `n`, `t`, `r`, `\`, `'` and `"` map to their
/// literal characters; anything else is refused.
pub fn escape(c: char) -> (r: Result<char, TemplateError>)
    ensures
        is_escape_code(c) ==> r == Ok::<char, TemplateError>(decoded_escape(c)),
        !is_escape_code(c) ==> r == Err::<char, TemplateError>(TemplateError::InvalidEscape),
{
    if c == 'n' {
        Ok('\n')
    } else if c == 't' {
        Ok('\t')
    } else if c == 'r' {
        Ok('\r')
    } else if c == '\\' || c == '\'' || c == '"' {
        Ok(c)
    } else {
        Err(TemplateError::InvalidEscape)
    }
}

/// The escaped-string scan, from index `i`: consumes plain characters and
/// backslash escapes until a quote, a newline or the end of `s`, and returns
/// the decoded text together with the index it stopped at. Fails only on a
/// backslash followed by no recognized escape code.
pub open spec fn escaped_scan(s: Seq<char>, i: int) -> Result<(Seq<char>, int), TemplateError>
    decreases s.len() - i,
{
    if i < 0 || i >= s.len() || s[i] == '"' || s[i] == '\n' {
        Ok((Seq::empty(), i))
    } else if s[i] == '\\' {
        if i + 1 < s.len() && is_escape_code(s[i + 1]) {
            match escaped_scan(s, i + 2) {
                Ok((d, e)) => Ok((seq![decoded_escape(s[i + 1])] + d, e)),
                Err(er) => Err(er),
            }
        } else {
            Err(TemplateError::InvalidEscape)
        }
    } else {
        match escaped_scan(s, i + 1) {
            Ok((d, e)) => Ok((seq![s[i]] + d, e)),
            Err(er) => Err(er),
        }
    }
}

pub proof fn lemma_escaped_scan_bounds(s: Seq<char>, i: int)
    requires
        0 <= i <= s.len(),
    ensures
        match escaped_scan(s, i) {
            Ok((d, e)) => i <= e <= s.len() && (e == s.len() || s[e] == '"' || s[e] == '\n'),
            Err(er) => er == TemplateError::InvalidEscape,
        },
    decreases s.len() - i,
{
    if i < s.len() && s[i] != '"' && s[i] != '\n' {
        if s[i] == '\\' {
            if i + 1 < s.len() && is_escape_code(s[i + 1]) {
                lemma_escaped_scan_bounds(s, i + 2);
            }
        } else {
            lemma_escaped_scan_bounds(s, i + 1);
        }
    }
}

/// End of the run of plain (unescaped) characters starting at `pos`.
pub fn string_noescape(s: &str, pos: usize) -> (end: usize)
    requires
        pos <= s@.len(),
    ensures
        end == noescape_end(s@, pos as int),
{
    let len = s.unicode_len();
    let mut j = pos;
    proof {
        assert(noescape_end(s@, pos as int) == scan_stop(s@, j as int, |c: char| stop_noescape(c)));
    }
    loop
        invariant
            pos <= j <= len,
            len == s@.len(),
            noescape_end(s@, pos as int) == scan_stop(s@, j as int, |c: char| stop_noescape(c)),
        decreases len - j,
    {
        if j >= len {
            proof {
                assert(scan_stop(s@, j as int, |c: char| stop_noescape(c)) == j);
            }
            return j;
        }
        let c = s.get_char(j);
        if c == '"' || c == '\\' || c == '\n' {
            proof {
                assert(scan_stop(s@, j as int, |c: char| stop_noescape(c)) == j);
            }
            return j;
        }
        j = j + 1;
    }
}

/// Scan and decode an escaped string from `pos` up to a quote, a newline or
/// the end of `s`; the returned index is where the scan stopped. Mirrors
/// [`escaped_scan`] exactly, including its failure on unknown escape codes.
pub fn string_escaped(s: &str, pos: usize) -> (r: Result<(String, usize), TemplateError>)
    requires
        pos <= s@.len(),
    ensures
        match r {
            Ok((d, e)) => escaped_scan(s@, pos as int) == Ok::<(Seq<char>, int), TemplateError>(
                (d@, e as int),
            ),
            Err(er) => escaped_scan(s@, pos as int) == Err::<(Seq<char>, int), TemplateError>(er),
        },
{
    let len = s.unicode_len();
    let mut out = String::new();
    let mut j = pos;
    loop
        invariant
            pos <= j <= len,
            len == s@.len(),
            escaped_scan(s@, pos as int) == match escaped_scan(s@, j as int) {
                Ok((d, e)) => Ok::<(Seq<char>, int), TemplateError>((out@ + d, e)),
                Err(er) => Err::<(Seq<char>, int), TemplateError>(er),
            },
        decreases len - j,
    {
        if j >= len {
            proof {
                assert(escaped_scan(s@, j as int) == Ok::<(Seq<char>, int), TemplateError>(
                    (Seq::<char>::empty(), j as int),
                ));
                assert(out@ + Seq::<char>::empty() =~= out@);
            }
            return Ok((out, j));
        }
        let c = s.get_char(j);
        if c == '"' || c == '\n' {
            proof {
                assert(escaped_scan(s@, j as int) == Ok::<(Seq<char>, int), TemplateError>(
                    (Seq::<char>::empty(), j as int),
                ));
                assert(out@ + Seq::<char>::empty() =~= out@);
            }
            return Ok((out, j));
        }
        if c == '\\' {
            if j + 1 >= len {
                return Err(TemplateError::InvalidEscape);
            }
            let code = s.get_char(j + 1);
            match escape(code) {
                Err(er) => {
                    return Err(er);
                },
                Ok(d) => {
                    let ghost out0 = out@;
                    if d == '\n' {
                        out.append("\n");
                        proof {
                            reveal_strlit("\n");
                            assert(out@ =~= out0 + seq![d]);
                        }
                    } else if d == '\t' {
                        out.append("\t");
                        proof {
                            reveal_strlit("\t");
                            assert(out@ =~= out0 + seq![d]);
                        }
                    } else if d == '\r' {
                        out.append("\r");
                        proof {
                            reveal_strlit("\r");
                            assert(out@ =~= out0 + seq![d]);
                        }
                    } else if d == '\\' {
                        out.append("\\");
                        proof {
                            reveal_strlit("\\");
                            assert(out@ =~= out0 + seq![d]);
                        }
                    } else if d == '\'' {
                        out.append("'");
                        proof {
                            reveal_strlit("'");
                            assert(out@ =~= out0 + seq![d]);
                        }
                    } else {
                        out.append("\"");
                        proof {
                            reveal_strlit("\"");
                            assert(d == '"');
                            assert(out@ =~= out0 + seq![d]);
                        }
                    }
                    proof {
                        assert(escaped_scan(s@, j as int) == match escaped_scan(s@, j + 2) {
                            Ok((d2, e)) => Ok::<(Seq<char>, int), TemplateError>(
                                (seq![decoded_escape(s@[j + 1])] + d2, e),
                            ),
                            Err(er) => Err::<(Seq<char>, int), TemplateError>(er),
                        });
                        assert(d == decoded_escape(s@[j + 1]));
                        match escaped_scan(s@, j + 2) {
                            Ok((d2, e)) => {
                                assert(out0 + (seq![d] + d2) =~= out@ + d2);
                            },
                            Err(_) => {},
                        }
                    }
                    j = j + 2;
                },
            }
        } else {
            let ghost out0 = out@;
            let piece = s.substring_char(j, j + 1);
            out.append(piece);
            proof {
                assert(piece@ =~= seq![s@[j as int]]);
                assert(out@ =~= out0 + seq![s@[j as int]]);
                assert(escaped_scan(s@, j as int) == match escaped_scan(s@, j + 1) {
                    Ok((d2, e)) => Ok::<(Seq<char>, int), TemplateError>(
                        (seq![s@[j as int]] + d2, e),
                    ),
                    Err(er) => Err::<(Seq<char>, int), TemplateError>(er),
                });
                match escaped_scan(s@, j + 1) {
                    Ok((d2, e)) => {
                        assert(out0 + (seq![s@[j as int]] + d2) =~= out@ + d2);
                    },
                    Err(_) => {},
                }
            }
            j = j + 1;
        }
    }
}

} // verus!
