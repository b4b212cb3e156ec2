//! Path handling as pure string computation over `/`-separated paths.
//! Back-slashes are normalized to slashes first; a path is absolute when it
//! starts with `/`. This mirrors how the rest of the engine names files: it
//! never touches the file system.

use vstd::prelude::*;
use crate::text::{
    slashify, slashify_chars, str_chars, chars_to_string, subrange_chars, split_on, split_chars,
    join_with, join_chars, chars_eq,
};

verus! {

/// The greatest position of `c` in `s`, if any.
pub open spec fn rfind(s: Seq<char>, c: char) -> Option<int>
    decreases s.len(),
{
    if s.len() == 0 {
        None
    } else if s.last() == c {
        Some(s.len() - 1)
    } else {
        rfind(s.drop_last(), c)
    }
}

pub proof fn lemma_rfind_bounds(s: Seq<char>, c: char)
    requires
        rfind(s, c) is Some,
    ensures
        0 <= rfind(s, c)->0 < s.len(),
        s[rfind(s, c)->0] == c,
    decreases s.len(),
{
    if s.len() == 0 {
    } else if s.last() == c {
    } else {
        lemma_rfind_bounds(s.drop_last(), c);
    }
}

/// The greatest position of `c` in `v`, if any.
pub fn rfind_char(v: &Vec<char>, c: char) -> (r: Option<usize>)
    ensures
        match r {
            Some(i) => rfind(v@, c) == Some(i as int),
            None => rfind(v@, c) is None,
        },
{
    let mut i: usize = v.len();
    proof {
        assert(v@.take(i as int) =~= v@);
    }
    while i > 0
        invariant
            i <= v@.len(),
            rfind(v@, c) == rfind(v@.take(i as int), c),
        decreases i,
    {
        proof {
            assert(v@.take(i as int).last() == v@[i - 1]);
            assert(v@.take(i as int).drop_last() =~= v@.take(i as int - 1));
        }
        if v[i - 1] == c {
            return Some(i - 1);
        }
        i -= 1;
    }
    proof {
        assert(v@.take(0) =~= Seq::<char>::empty());
    }
    None
}

/// The part after the last `/`, or the whole path.
pub open spec fn spec_file_name(s: Seq<char>) -> Seq<char> {
    match rfind(s, '/') {
        Some(i) => s.skip(i + 1),
        None => s,
    }
}

/// The file name without its extension. A leading dot does not start an
/// extension.
pub open spec fn spec_file_stem(s: Seq<char>) -> Seq<char> {
    let n = spec_file_name(s);
    match rfind(n, '.') {
        Some(i) => if i > 0 {
            n.take(i)
        } else {
            n
        },
        None => n,
    }
}

/// The extension of the file name, if it has one.
pub open spec fn spec_extension(s: Seq<char>) -> Option<Seq<char>> {
    let n = spec_file_name(s);
    match rfind(n, '.') {
        Some(i) => if i > 0 {
            Some(n.skip(i + 1))
        } else {
            None
        },
        None => None,
    }
}

/// The part before the last `/`; empty when there is none.
pub open spec fn spec_parent(s: Seq<char>) -> Seq<char> {
    match rfind(s, '/') {
        Some(i) => s.take(i),
        None => Seq::<char>::empty(),
    }
}

/// The part after the last `/`, or the whole path.
pub fn file_name(path: &str) -> (r: String)
    ensures
        r@ == spec_file_name(path@),
{
    let v = str_chars(path);
    match rfind_char(&v, '/') {
        Some(i) => {
            let n = v.len();
            proof {
                lemma_rfind_bounds(v@, '/');
                assert(i < n);
            }
            let w = subrange_chars(&v, i + 1, n);
            proof {
                assert(w@ =~= v@.skip(i + 1));
            }
            chars_to_string(&w)
        },
        None => chars_to_string(&v),
    }
}

/// The file name without its extension.
pub fn file_stem(path: &str) -> (r: String)
    ensures
        r@ == spec_file_stem(path@),
{
    let name = file_name(path);
    let v = str_chars(name.as_str());
    match rfind_char(&v, '.') {
        Some(i) => {
            if i > 0 {
                proof {
                    lemma_rfind_bounds(v@, '.');
                }
                let w = subrange_chars(&v, 0, i);
                proof {
                    assert(w@ =~= v@.take(i as int));
                }
                chars_to_string(&w)
            } else {
                name
            }
        },
        None => name,
    }
}

/// The extension of the file name, if it has one.
pub fn extension(path: &str) -> (r: Option<String>)
    ensures
        match r {
            Some(e) => spec_extension(path@) == Some(e@),
            None => spec_extension(path@) is None,
        },
{
    let name = file_name(path);
    let v = str_chars(name.as_str());
    match rfind_char(&v, '.') {
        Some(i) => {
            if i > 0 {
                let n = v.len();
                proof {
                    lemma_rfind_bounds(v@, '.');
                    assert(i < n);
                }
                let w = subrange_chars(&v, i + 1, n);
                proof {
                    assert(w@ =~= v@.skip(i + 1));
                }
                Some(chars_to_string(&w))
            } else {
                None
            }
        },
        None => None,
    }
}

/// The part before the last `/`; empty when there is none.
pub fn parent_dir(path: &str) -> (r: String)
    ensures
        r@ == spec_parent(path@),
{
    let v = str_chars(path);
    match rfind_char(&v, '/') {
        Some(i) => {
            proof {
                lemma_rfind_bounds(v@, '/');
            }
            let w = subrange_chars(&v, 0, i);
            proof {
                assert(w@ =~= v@.take(i as int));
            }
            chars_to_string(&w)
        },
        None => chars_to_string(&Vec::new()),
    }
}

/// Whether a (slash-normalized) path is absolute.
pub open spec fn is_abs(s: Seq<char>) -> bool {
    s.len() > 0 && s[0] == '/'
}

/// The empty segments removed.
pub open spec fn drop_empty(segs: Seq<Seq<char>>) -> Seq<Seq<char>>
    decreases segs.len(),
{
    if segs.len() == 0 {
        Seq::<Seq<char>>::empty()
    } else if segs[0].len() == 0 {
        drop_empty(segs.drop_first())
    } else {
        seq![segs[0]] + drop_empty(segs.drop_first())
    }
}

/// Segment normalization: `.` disappears, `..` removes the previous kept
/// segment (including a root marker), anything else is kept.
pub open spec fn norm_segs(segs: Seq<Seq<char>>, acc: Seq<Seq<char>>) -> Seq<Seq<char>>
    decreases segs.len(),
{
    if segs.len() == 0 {
        acc
    } else {
        let s0 = segs[0];
        if s0 == "."@ {
            norm_segs(segs.drop_first(), acc)
        } else if s0 == ".."@ {
            norm_segs(segs.drop_first(), if acc.len() > 0 {
                acc.drop_last()
            } else {
                acc
            })
        } else {
            norm_segs(segs.drop_first(), acc.push(s0))
        }
    }
}

/// Path normalization: back-slashes become slashes, a relative path is
/// joined under `root`, and `.` and `..` segments are resolved textually.
/// An absolute path is processed with a root marker that `..` can consume,
/// so `/a/../../b` normalizes to `b`.
pub open spec fn spec_normalize_path(path: Seq<char>, root: Seq<char>) -> Seq<char> {
    let p = slashify(path);
    let joined = if is_abs(p) {
        p
    } else if root.len() == 0 {
        p
    } else {
        root + seq!['/'] + p
    };
    let segs0 = drop_empty(split_on(joined, seq!['/']));
    let segs = if is_abs(joined) {
        seq!["/"@] + segs0
    } else {
        segs0
    };
    let kept = norm_segs(segs, Seq::<Seq<char>>::empty());
    if kept.len() > 0 && kept[0] == "/"@ {
        "/"@ + join_with(kept.skip(1), seq!['/'])
    } else {
        join_with(kept, seq!['/'])
    }
}

pub proof fn lemma_drop_empty_take(segs: Seq<Seq<char>>, i: int)
    requires
        0 <= i < segs.len(),
    ensures
        drop_empty(segs.take(i + 1)) == drop_empty(segs.take(i)) + (if segs[i].len() == 0 {
            Seq::<Seq<char>>::empty()
        } else {
            seq![segs[i]]
        }),
    decreases i,
{
    let a = segs.take(i + 1);
    let b = segs.take(i);
    if i == 0 {
        assert(a.drop_first() =~= Seq::<Seq<char>>::empty());
        assert(b =~= Seq::<Seq<char>>::empty());
        if segs[0].len() == 0 {
            assert(drop_empty(a) =~= drop_empty(b));
        } else {
            assert(drop_empty(a) =~= drop_empty(b) + seq![segs[0]]);
        }
    } else {
        lemma_drop_empty_take(segs.drop_first(), i - 1);
        assert(segs.drop_first().take(i) =~= a.drop_first());
        assert(segs.drop_first().take(i - 1) =~= b.drop_first());
        assert(segs.drop_first()[i - 1] == segs[i]);
        if segs[0].len() == 0 {
        } else {
            assert(drop_empty(a) =~= seq![segs[0]] + drop_empty(a.drop_first()));
            assert(drop_empty(b) =~= seq![segs[0]] + drop_empty(b.drop_first()));
            assert(drop_empty(a) =~= drop_empty(b) + (if segs[i].len() == 0 {
                Seq::<Seq<char>>::empty()
            } else {
                seq![segs[i]]
            }));
        }
    }
}

fn drop_empty_exec(segs: &Vec<Vec<char>>) -> (r: Vec<Vec<char>>)
    ensures
        r.deep_view() == drop_empty(segs.deep_view()),
{
    let n = segs.len();
    let mut out: Vec<Vec<char>> = Vec::new();
    let mut i: usize = 0;
    proof {
        assert(segs.deep_view().take(0) =~= Seq::<Seq<char>>::empty());
        assert(out.deep_view() =~~= drop_empty(segs.deep_view().take(0)));
    }
    while i < n
        invariant
            i <= n,
            n == segs@.len(),
            out.deep_view() == drop_empty(segs.deep_view().take(i as int)),
        decreases n - i,
    {
        proof {
            lemma_drop_empty_take(segs.deep_view(), i as int);
        }
        if segs[i].len() > 0 {
            let piece = subrange_chars(&segs[i], 0, segs[i].len());
            proof {
                assert(piece@ =~= segs.deep_view()[i as int]);
            }
            out.push(piece);
            proof {
                assert(out.deep_view() =~~= drop_empty(segs.deep_view().take(i + 1)));
            }
        } else {
            proof {
                assert(out.deep_view() =~~= drop_empty(segs.deep_view().take(i + 1)));
            }
        }
        i += 1;
    }
    proof {
        assert(segs.deep_view().take(n as int) =~= segs.deep_view());
    }
    out
}

fn norm_segs_exec(segs: &Vec<Vec<char>>, start: &Vec<Vec<char>>) -> (r: Vec<Vec<char>>)
    ensures
        r.deep_view() == norm_segs(segs.deep_view(), start.deep_view()),
{
    let n = segs.len();
    let mut acc: Vec<Vec<char>> = Vec::new();
    let mut j: usize = 0;
    let m = start.len();
    while j < m
        invariant
            j <= m,
            m == start@.len(),
            acc.deep_view() =~~= start.deep_view().take(j as int),
        decreases m - j,
    {
        let piece = subrange_chars(&start[j], 0, start[j].len());
        proof {
            assert(piece@ =~= start.deep_view()[j as int]);
        }
        push_piece(&mut acc, piece);
        proof {
            assert(acc.deep_view() =~= start.deep_view().take(j + 1));
        }
        j += 1;
    }
    proof {
        assert(start.deep_view().take(m as int) =~= start.deep_view());
    }
    let dot = str_chars(".");
    let dotdot = str_chars("..");
    let mut i: usize = 0;
    proof {
        assert(segs.deep_view().skip(0) =~= segs.deep_view());
    }
    while i < n
        invariant
            i <= n,
            n == segs@.len(),
            dot@ == "."@,
            dotdot@ == ".."@,
            norm_segs(segs.deep_view(), start.deep_view()) == norm_segs(
                segs.deep_view().skip(i as int),
                acc.deep_view(),
            ),
        decreases n - i,
    {
        let ghost pre = segs.deep_view().skip(i as int);
        let ghost acc0 = acc.deep_view();
        proof {
            assert(pre[0] == segs.deep_view()[i as int]);
            assert(pre.drop_first() =~= segs.deep_view().skip(i as int + 1));
            assert(segs.deep_view()[i as int] =~= segs@[i as int]@);
        }
        if chars_eq(&segs[i], &dot) {
            proof {
                assert(pre[0] == "."@);
                assert(norm_segs(pre, acc0) == norm_segs(pre.drop_first(), acc0));
            }
        } else if chars_eq(&segs[i], &dotdot) {
            proof {
                assert(pre[0] == ".."@);
                assert(pre[0] != "."@) by {
                    reveal_strlit(".");
                    reveal_strlit("..");
                }
            }
            if acc.len() > 0 {
                acc.pop();
                proof {
                    assert forall|k: int|
                        0 <= k < acc@.len() implies acc.deep_view()[k] == acc0.drop_last()[k] by {
                        assert(acc@[k].deep_view() == acc0[k]);
                    }
                    assert(acc.deep_view() =~= acc0.drop_last());
                    assert(norm_segs(pre, acc0) == norm_segs(pre.drop_first(), acc0.drop_last()));
                }
            } else {
                proof {
                    assert(acc0.len() == 0);
                    assert(norm_segs(pre, acc0) == norm_segs(pre.drop_first(), acc0));
                }
            }
        } else {
            proof {
                assert(pre[0] != "."@ && pre[0] != ".."@);
                assert(norm_segs(pre, acc0) == norm_segs(pre.drop_first(), acc0.push(pre[0])));
            }
            let piece = subrange_chars(&segs[i], 0, segs[i].len());
            proof {
                assert(piece@ =~= segs.deep_view()[i as int]);
            }
            push_piece(&mut acc, piece);
            proof {
                assert(acc.deep_view() =~= acc0.push(pre[0]));
            }
        }
        i += 1;
    }
    proof {
        assert(segs.deep_view().skip(n as int) =~= Seq::<Seq<char>>::empty());
    }
    acc
}


fn push_piece(out: &mut Vec<Vec<char>>, piece: Vec<char>)
    ensures
        final(out).deep_view() == old(out).deep_view().push(piece@),
{
    let ghost p = piece@;
    let ghost before = out.deep_view();
    out.push(piece);
    proof {
        assert(out@.len() == old(out)@.len() + 1);
        assert forall|k: int| 0 <= k < out@.len() implies out.deep_view()[k] == before.push(p)[k]
        by {
            if k < old(out)@.len() {
                assert(out@[k] == old(out)@[k]);
                assert(before[k] == old(out)@[k].deep_view());
            } else {
                assert(out@[k] == out@[out@.len() - 1]);
            }
        }
        assert(out.deep_view() =~= before.push(p));
    }
}

fn tail_pieces(segs: &Vec<Vec<char>>) -> (r: Vec<Vec<char>>)
    requires
        segs@.len() >= 1,
    ensures
        r.deep_view() == segs.deep_view().skip(1),
{
    let n = segs.len();
    let mut out: Vec<Vec<char>> = Vec::new();
    let mut i: usize = 1;
    proof {
        assert(out.deep_view() =~~= segs.deep_view().subrange(1, 1));
    }
    while i < n
        invariant
            1 <= i <= n,
            n == segs@.len(),
            out.deep_view() == segs.deep_view().subrange(1, i as int),
        decreases n - i,
    {
        let piece = subrange_chars(&segs[i], 0, segs[i].len());
        proof {
            assert(piece@ =~= segs.deep_view()[i as int]);
        }
        push_piece(&mut out, piece);
        proof {
            assert(out.deep_view() =~= segs.deep_view().subrange(1, i + 1));
        }
        i += 1;
    }
    proof {
        assert(segs.deep_view().subrange(1, n as int) =~= segs.deep_view().skip(1));
    }
    out
}

/// Path normalization over strings: `\` becomes `/`, a relative path is
/// joined under `project_root`, and `.` and `..` segments are resolved.
pub fn normalize_path(path_str: &str, project_root: &str) -> (r: String)
    ensures
        r@ == spec_normalize_path(path_str@, project_root@),
{
    let p = {
        let v0 = str_chars(path_str);
        slashify_chars(&v0)
    };
    let root = str_chars(project_root);
    let p_abs = p.len() > 0 && p[0] == '/';
    let joined: Vec<char> = if p_abs {
        p
    } else if root.len() == 0 {
        p
    } else {
        let mut j = subrange_chars(&root, 0, root.len());
        j.push('/');
        let mut pc = p;
        j.append(&mut pc);
        proof {
            assert(root@.subrange(0, root@.len() as int) =~= root@);
            assert(j@ =~= project_root@ + seq!['/'] + slashify(path_str@));
        }
        j
    };
    let ghost joined_spec = {
        let ps = slashify(path_str@);
        if is_abs(ps) {
            ps
        } else if project_root@.len() == 0 {
            ps
        } else {
            project_root@ + seq!['/'] + ps
        }
    };
    proof {
        assert(joined@ == joined_spec);
    }
    let mut sep: Vec<char> = Vec::new();
    sep.push('/');
    proof {
        assert(sep@ =~= seq!['/']);
    }
    let raw = split_chars(&joined, &sep);
    let segs0 = drop_empty_exec(&raw);
    let j_abs = joined.len() > 0 && joined[0] == '/';
    let marker = str_chars("/");
    let segs: Vec<Vec<char>> = if j_abs {
        let mut s: Vec<Vec<char>> = Vec::new();
        let m2 = subrange_chars(&marker, 0, marker.len());
        proof {
            assert(m2@ =~= "/"@);
        }
        s.push(m2);
        let mut t = segs0;
        s.append(&mut t);
        proof {
            assert(s.deep_view() =~~= seq!["/"@] + drop_empty(split_on(joined_spec, seq!['/'])));
        }
        s
    } else {
        segs0
    };
    let empty_start: Vec<Vec<char>> = Vec::new();
    proof {
        assert(empty_start.deep_view() =~~= Seq::<Seq<char>>::empty());
    }
    let kept = norm_segs_exec(&segs, &empty_start);
    let marker_first = kept.len() > 0 && chars_eq(&kept[0], &marker);
    proof {
        if kept@.len() > 0 {
            assert(kept.deep_view()[0] =~= kept@[0]@);
        }
    }
    if marker_first {
        let tail = tail_pieces(&kept);
        let rest = join_chars(&tail, &sep);
        let mut out: Vec<char> = Vec::new();
        out.push('/');
        let mut rest_mut = rest;
        out.append(&mut rest_mut);
        proof {
            reveal_strlit("/");
            assert("/"@ =~= seq!['/']);
            assert(out@ =~= "/"@ + join_with(kept.deep_view().skip(1), seq!['/']));
        }
        chars_to_string(&out)
    } else {
        let out = join_chars(&kept, &sep);
        chars_to_string(&out)
    }
}

/// The output-path template rendered against one input: each occurrence of
/// `{INPUT}` in the template is replaced by the input path.
pub fn render_out_path(template: &str, input: &str) -> (r: String)
    ensures
        r@ == join_with(split_on(template@, "{INPUT}"@), input@),
{
    let tv = str_chars(template);
    let pat = str_chars("{INPUT}");
    proof {
        reveal_strlit("{INPUT}");
    }
    let pieces = split_chars(&tv, &pat);
    let iv = str_chars(input);
    let out = join_chars(&pieces, &iv);
    chars_to_string(&out)
}

} // verus!
