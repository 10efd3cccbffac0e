//! Path arithmetic on `/`-separated path strings: resolving an insert path
//! against the template file's directory, and mapping a content-file path
//! under the source root to its output path.

use vstd::prelude::*;

use crate::eval::str_eq;

verus! {

/// The largest index of `c` in `s` strictly before `i`, or `-1` if there is
/// none.
pub open spec fn last_before(s: Seq<char>, i: int, c: char) -> int
    decreases i,
{
    if i <= 0 {
        -1
    } else if 0 < i <= s.len() && s[i - 1] == c {
        i - 1
    } else {
        last_before(s, i - 1, c)
    }
}

pub proof fn lemma_last_before_bounds(s: Seq<char>, i: int, c: char)
    requires
        0 <= i <= s.len(),
    ensures
        -1 <= last_before(s, i, c) < i,
        last_before(s, i, c) >= 0 ==> s[last_before(s, i, c)] == c,
        forall|j: int| last_before(s, i, c) < j < i ==> s[j] != c,
    decreases i,
{
    if i > 0 && s[i - 1] != c {
        lemma_last_before_bounds(s, i - 1, c);
    }
}

/// Where a path insert is read from: `p` itself when absolute, otherwise `p`
/// under the directory of the template file — everything in `t` up to and
/// including its last `/`, or `p` alone when `t` has no directory part.
pub open spec fn spec_resolve(t: Seq<char>, p: Seq<char>) -> Seq<char> {
    if p.len() > 0 && p[0] == '/' {
        p
    } else {
        let k = last_before(t, t.len() as int, '/');
        if k >= 0 {
            t.take(k + 1) + p
        } else {
            p
        }
    }
}

fn rfind_char(s: &str, c: char) -> (r: Option<usize>)
    ensures
        match r {
            Some(k) => last_before(s@, s@.len() as int, c) == k as int,
            None => last_before(s@, s@.len() as int, c) == -1,
        },
{
    let len = s.unicode_len();
    let mut i = len;
    loop
        invariant
            0 <= i <= len,
            len == s@.len(),
            last_before(s@, len as int, c) == last_before(s@, i as int, c),
        decreases i,
    {
        if i == 0 {
            return None;
        }
        if s.get_char(i - 1) == c {
            return Some(i - 1);
        }
        i = i - 1;
    }
}

/// Resolve the path of an `insert` directive relative to the template file's
/// directory: the path a render reads that insert from.
pub fn resolve_path(template_path: &str, p: &str) -> (r: String)
    ensures
        r@ == spec_resolve(template_path@, p@),
{
    let plen = p.unicode_len();
    if plen > 0 {
        if p.get_char(0) == '/' {
            return String::from_str(p);
        }
    }
    let tlen = template_path.unicode_len();
    proof {
        lemma_last_before_bounds(template_path@, template_path@.len() as int, '/');
    }
    match rfind_char(template_path, '/') {
        Some(k) => {
            proof {
                assert(k < tlen);
            }
            let mut out = String::from_str(template_path.substring_char(0, k + 1));
            out.append(p);
            proof {
                assert(template_path@.subrange(0, k + 1) =~= template_path@.take(k + 1));
            }
            out
        },
        None => String::from_str(p),
    }
}

/// `p` lies under the directory `root`: `root` is a character prefix and the
/// cut falls on a component boundary.
pub open spec fn spec_in_dir(root: Seq<char>, p: Seq<char>) -> bool {
    &&& root.len() <= p.len()
    &&& p.take(root.len() as int) == root
    &&& (root.len() == 0 || root.len() == p.len() || root[root.len() - 1] == '/' || p[root.len() as int]
        == '/')
}

/// The part of `p` below the directory `root`, without a leading separator.
pub open spec fn spec_rel(root: Seq<char>, p: Seq<char>) -> Seq<char> {
    let r0 = p.skip(root.len() as int);
    if root.len() > 0 && r0.len() > 0 && r0[0] == '/' {
        r0.drop_first()
    } else {
        r0
    }
}

/// Join an output directory and a relative path with `/`; an absolute `b`
/// replaces `a`, as pushing onto a path does.
pub open spec fn spec_join(a: Seq<char>, b: Seq<char>) -> Seq<char> {
    if b.len() > 0 && b[0] == '/' {
        b
    } else if a.len() == 0 {
        b
    } else if a[a.len() - 1] == '/' {
        a + b
    } else {
        a + seq!['/'] + b
    }
}

/// The extension of the final component of `s`: what follows its last dot,
/// provided that dot is neither its first character nor in a directory part.
pub open spec fn spec_extension(s: Seq<char>) -> Option<Seq<char>> {
    let cs = last_before(s, s.len() as int, '/') + 1;
    let d = last_before(s, s.len() as int, '.');
    if d > cs {
        Some(s.skip(d + 1))
    } else {
        None
    }
}

/// The output path of `path` taken from under `in_root` and re-rooted at
/// `out_root`; `None` when `path` does not lie under `in_root`. When
/// `strip` names the extension the result happens to carry, that extension
/// (dot included) is removed.
pub open spec fn spec_path_for(
    in_root: Seq<char>,
    out_root: Seq<char>,
    p: Seq<char>,
    strip: Option<Seq<char>>,
) -> Option<Seq<char>> {
    if !spec_in_dir(in_root, p) {
        None
    } else {
        let joined = spec_join(out_root, spec_rel(in_root, p));
        match strip {
            None => Some(joined),
            Some(suf) => match spec_extension(joined) {
                Some(e) => if e == suf {
                    Some(joined.take(joined.len() - e.len() - 1))
                } else {
                    Some(joined)
                },
                None => Some(joined),
            },
        }
    }
}

/// The output path corresponding to the given input path: `path` relative to
/// `in_root`, re-rooted at `out_root`, with `strip_extension` (when given and
/// matching) removed. `None` when `path` is not under `in_root`.
pub fn path_for(in_root: &str, out_root: &str, path: &str, strip_extension: Option<&str>) -> (r:
    Option<String>)
    ensures
        match r {
            Some(s) => spec_path_for(
                in_root@,
                out_root@,
                path@,
                match strip_extension {
                    Some(suf) => Some(suf@),
                    None => None,
                },
            ) == Some(s@),
            None => spec_path_for(
                in_root@,
                out_root@,
                path@,
                match strip_extension {
                    Some(suf) => Some(suf@),
                    None => None,
                },
            ) is None,
        },
{
    let rootlen = in_root.unicode_len();
    let plen = path.unicode_len();
    if rootlen > plen {
        return None;
    }
    let mut k: usize = 0;
    while k < rootlen
        invariant
            0 <= k <= rootlen <= plen,
            rootlen == in_root@.len(),
            plen == path@.len(),
            forall|j: int| 0 <= j < k ==> path@[j] == in_root@[j],
        decreases rootlen - k,
    {
        if path.get_char(k) != in_root.get_char(k) {
            proof {
                assert(path@.take(rootlen as int)[k as int] != in_root@[k as int]);
            }
            return None;
        }
        k = k + 1;
    }
    proof {
        assert(path@.take(rootlen as int) =~= in_root@);
    }
    let mut boundary = rootlen == 0 || rootlen == plen;
    if !boundary {
        boundary = in_root.get_char(rootlen - 1) == '/' || path.get_char(rootlen) == '/';
    }
    if !boundary {
        return None;
    }
    let mut rstart = rootlen;
    if rootlen > 0 && rootlen < plen {
        if path.get_char(rootlen) == '/' {
            rstart = rootlen + 1;
        }
    }
    proof {
        assert(path@.skip(rootlen as int).len() > 0 ==> path@.skip(rootlen as int)[0]
            == path@[rootlen as int]);
        assert(spec_rel(in_root@, path@) =~= path@.skip(rstart as int));
    }
    let rel = path.substring_char(rstart, plen);
    let orlen = out_root.unicode_len();
    let mut joined: String;
    let mut rel_absolute = false;
    if rstart < plen {
        rel_absolute = path.get_char(rstart) == '/';
    }
    if rel_absolute {
        joined = String::from_str(rel);
    } else if orlen == 0 {
        joined = String::from_str(rel);
    } else if out_root.get_char(orlen - 1) == '/' {
        joined = String::from_str(out_root);
        joined.append(rel);
    } else {
        joined = String::from_str(out_root);
        joined.append("/");
        joined.append(rel);
        proof {
            reveal_strlit("/");
        }
    }
    let ghost joinedv = spec_join(out_root@, spec_rel(in_root@, path@));
    proof {
        assert(rel@ =~= path@.skip(rstart as int));
        assert(joined@ =~= joinedv);
    }
    match strip_extension {
        None => Some(joined),
        Some(suf) => {
            let jlen = joined.as_str().unicode_len();
            proof {
                lemma_last_before_bounds(joined@, joined@.len() as int, '/');
                lemma_last_before_bounds(joined@, joined@.len() as int, '.');
            }
            let cs: usize = match rfind_char(joined.as_str(), '/') {
                Some(sk) => sk + 1,
                None => 0,
            };
            match rfind_char(joined.as_str(), '.') {
                Some(d) => {
                    if d > cs {
                        let ext = joined.as_str().substring_char(d + 1, jlen);
                        proof {
                            assert(ext@ =~= joined@.skip(d + 1));
                        }
                        if str_eq(ext, suf) {
                            let stem = String::from_str(joined.as_str().substring_char(0, d));
                            proof {
                                assert(stem@ =~= joined@.take(joined@.len() - (joined@.len() - (d
                                    + 1)) - 1));
                            }
                            Some(stem)
                        } else {
                            Some(joined)
                        }
                    } else {
                        Some(joined)
                    }
                },
                None => Some(joined),
            }
        },
    }
}

} // verus!
