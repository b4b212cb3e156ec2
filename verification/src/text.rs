//! Character-level helpers shared by the expander, the path logic and the
//! dependency-listing parser. Strings are processed as `Vec<char>`, whose view
//! is the same `Seq<char>` as the view of `String`.

use vstd::prelude::*;
use vstd::string::*;

verus! {

/// The Unicode white-space characters, the set that `str::trim` removes.
pub open spec fn is_space(c: char) -> bool {
    ||| c == ' '
    ||| c == '\t'
    ||| c == '\n'
    ||| c == '\r'
    ||| c == '\u{000B}'
    ||| c == '\u{000C}'
    ||| c == '\u{0085}'
    ||| c == '\u{00A0}'
    ||| c == '\u{1680}'
    ||| c == '\u{2000}'
    ||| c == '\u{2001}'
    ||| c == '\u{2002}'
    ||| c == '\u{2003}'
    ||| c == '\u{2004}'
    ||| c == '\u{2005}'
    ||| c == '\u{2006}'
    ||| c == '\u{2007}'
    ||| c == '\u{2008}'
    ||| c == '\u{2009}'
    ||| c == '\u{200A}'
    ||| c == '\u{2028}'
    ||| c == '\u{2029}'
    ||| c == '\u{202F}'
    ||| c == '\u{205F}'
    ||| c == '\u{3000}'
}

pub fn is_space_char(c: char) -> (r: bool)
    ensures
        r == is_space(c),
{
    c == ' ' || c == '\t' || c == '\n' || c == '\r' || c == '\u{000B}' || c == '\u{000C}'
        || c == '\u{0085}' || c == '\u{00A0}' || c == '\u{1680}' || c == '\u{2000}'
        || c == '\u{2001}' || c == '\u{2002}' || c == '\u{2003}' || c == '\u{2004}'
        || c == '\u{2005}' || c == '\u{2006}' || c == '\u{2007}' || c == '\u{2008}'
        || c == '\u{2009}' || c == '\u{200A}' || c == '\u{2028}' || c == '\u{2029}'
        || c == '\u{202F}' || c == '\u{205F}' || c == '\u{3000}'
}

/// The sequence with its leading white space removed.
pub open spec fn spec_trim_start(s: Seq<char>) -> Seq<char>
    decreases s.len(),
{
    if s.len() > 0 && is_space(s[0]) {
        spec_trim_start(s.drop_first())
    } else {
        s
    }
}

/// The sequence with its trailing white space removed.
pub open spec fn spec_trim_end(s: Seq<char>) -> Seq<char>
    decreases s.len(),
{
    if s.len() > 0 && is_space(s.last()) {
        spec_trim_end(s.drop_last())
    } else {
        s
    }
}

/// The sequence with white space removed from both ends, as `str::trim` does.
pub open spec fn spec_trim(s: Seq<char>) -> Seq<char> {
    spec_trim_end(spec_trim_start(s))
}

proof fn lemma_trim_start_at(s: Seq<char>, a: int)
    requires
        0 <= a <= s.len(),
        forall|j: int| 0 <= j < a ==> is_space(s[j]),
        a < s.len() ==> !is_space(s[a]),
    ensures
        spec_trim_start(s) =~= s.subrange(a, s.len() as int),
    decreases a,
{
    if a == 0 {
        if s.len() > 0 && is_space(s[0]) {
            assert(false);
        }
        assert(spec_trim_start(s) =~= s.subrange(0, s.len() as int));
    } else {
        assert(is_space(s[0]));
        let t = s.drop_first();
        assert(forall|j: int| 0 <= j < a - 1 ==> is_space(#[trigger] t[j]));
        lemma_trim_start_at(t, a - 1);
        assert(t.subrange(a - 1, t.len() as int) =~= s.subrange(a, s.len() as int));
    }
}

proof fn lemma_trim_end_at(s: Seq<char>, b: int)
    requires
        0 <= b <= s.len(),
        forall|j: int| b <= j < s.len() ==> is_space(s[j]),
        b > 0 ==> !is_space(s[b - 1]),
    ensures
        spec_trim_end(s) =~= s.subrange(0, b),
    decreases s.len() - b,
{
    if b == s.len() {
        if s.len() > 0 && is_space(s.last()) {
            assert(false);
        }
        assert(spec_trim_end(s) =~= s.subrange(0, b));
    } else {
        assert(is_space(s.last()));
        let t = s.drop_last();
        assert(forall|j: int| b <= j < t.len() ==> is_space(#[trigger] t[j]));
        lemma_trim_end_at(t, b);
        assert(t.subrange(0, b) =~= s.subrange(0, b));
    }
}

/// Copies `v[from..to]` into a fresh vector.
pub fn subrange_chars(v: &Vec<char>, from: usize, to: usize) -> (r: Vec<char>)
    requires
        from <= to <= v@.len(),
    ensures
        r@ == v@.subrange(from as int, to as int),
{
    let mut r: Vec<char> = Vec::new();
    let mut i: usize = from;
    while i < to
        invariant
            from <= i <= to <= v@.len(),
            r@ == v@.subrange(from as int, i as int),
        decreases to - i,
    {
        r.push(v[i]);
        i += 1;
        assert(r@ =~= v@.subrange(from as int, i as int));
    }
    r
}

/// Removes white space at both ends, as `str::trim` does.
pub fn trim_chars(v: &Vec<char>) -> (r: Vec<char>)
    ensures
        r@ == spec_trim(v@),
{
    let n = v.len();
    let mut a: usize = 0;
    while a < n && is_space_char(v[a])
        invariant
            a <= n,
            n == v@.len(),
            forall|j: int| 0 <= j < a ==> is_space(v@[j]),
        decreases n - a,
    {
        a += 1;
    }
    proof {
        lemma_trim_start_at(v@, a as int);
    }
    let mut b: usize = n;
    while b > a && is_space_char(v[b - 1])
        invariant
            a <= b <= n,
            n == v@.len(),
            forall|j: int| b <= j < n ==> is_space(v@[j]),
        decreases b,
    {
        b -= 1;
    }
    let ghost mid = v@.subrange(a as int, n as int);
    proof {
        assert(forall|j: int| b - a <= j < mid.len() ==> is_space(#[trigger] mid[j]));
        if b > a {
            assert(mid[b - a - 1] == v@[b as int - 1]);
        }
        lemma_trim_end_at(mid, b as int - a as int);
        assert(mid.subrange(0, b as int - a as int) =~= v@.subrange(a as int, b as int));
    }
    subrange_chars(v, a, b)
}

/// The characters of a string, in order: `r@ == s@`.
pub fn str_chars(s: &str) -> (r: Vec<char>)
    ensures
        r@ == s@,
{
    let n = s.unicode_len();
    let mut r: Vec<char> = Vec::new();
    let mut i: usize = 0;
    while i < n
        invariant
            i <= n,
            n == s@.len(),
            r@ == s@.subrange(0, i as int),
        decreases n - i,
    {
        r.push(s.get_char(i));
        i += 1;
        assert(r@ =~= s@.subrange(0, i as int));
    }
    assert(r@ =~= s@);
    r
}

/// Relies on `String`'s `FromIterator<char>` implementation, which collects
/// exactly the given characters in order.
#[verifier::external_body]
pub fn chars_to_string(v: &Vec<char>) -> (r: String)
    ensures
        r@ == v@,
{
    v.iter().collect()
}

/// Whether `p` is a prefix of `s`.
pub open spec fn has_prefix(s: Seq<char>, p: Seq<char>) -> bool {
    p.len() <= s.len() && s.subrange(0, p.len() as int) == p
}

/// Whether `p` is a suffix of `s`.
pub open spec fn has_suffix(s: Seq<char>, p: Seq<char>) -> bool {
    p.len() <= s.len() && s.subrange(s.len() - p.len(), s.len() as int) == p
}

pub fn chars_eq(a: &Vec<char>, b: &Vec<char>) -> (r: bool)
    ensures
        r == (a@ == b@),
{
    if a.len() != b.len() {
        return false;
    }
    let n = a.len();
    let mut i: usize = 0;
    while i < n
        invariant
            i <= n,
            n == a@.len() == b@.len(),
            forall|j: int| 0 <= j < i ==> a@[j] == b@[j],
        decreases n - i,
    {
        if a[i] != b[i] {
            return false;
        }
        i += 1;
    }
    proof {
        assert(a@ =~= b@);
    }
    true
}

pub fn chars_has_prefix(s: &Vec<char>, p: &Vec<char>) -> (r: bool)
    ensures
        r == has_prefix(s@, p@),
{
    if p.len() > s.len() {
        assert(!has_prefix(s@, p@));
        return false;
    }
    let n = p.len();
    let mut i: usize = 0;
    while i < n
        invariant
            i <= n,
            n == p@.len() <= s@.len(),
            forall|j: int| 0 <= j < i ==> s@[j] == p@[j],
        decreases n - i,
    {
        if s[i] != p[i] {
            assert(s@.subrange(0, p@.len() as int)[i as int] != p@[i as int]);
            return false;
        }
        i += 1;
    }
    proof {
        assert(s@.subrange(0, p@.len() as int) =~= p@);
    }
    true
}

pub fn chars_has_suffix(s: &Vec<char>, p: &Vec<char>) -> (r: bool)
    ensures
        r == has_suffix(s@, p@),
{
    if p.len() > s.len() {
        assert(!has_suffix(s@, p@));
        return false;
    }
    let n = p.len();
    let off = s.len() - n;
    let mut i: usize = 0;
    while i < n
        invariant
            i <= n,
            n == p@.len() <= s@.len(),
            s@.len() <= usize::MAX,
            off == s@.len() - n,
            forall|j: int| 0 <= j < i ==> s@[off + j] == p@[j],
        decreases n - i,
    {
        assert(off + i < s@.len());
        if s[off + i] != p[i] {
            assert(s@.subrange(s@.len() - p@.len(), s@.len() as int)[i as int] != p@[i as int]);
            return false;
        }
        i += 1;
    }
    proof {
        assert(s@.subrange(s@.len() - p@.len(), s@.len() as int) =~= p@);
    }
    true
}

/// Equality of two string slices, by their character views.
pub fn str_eq(a: &str, b: &str) -> (r: bool)
    ensures
        r == (a@ == b@),
{
    let va = str_chars(a);
    let vb = str_chars(b);
    chars_eq(&va, &vb)
}

/// Equality between a `String` and a character vector: both views are `Seq<char>`.
pub fn string_eq_chars(s: &String, v: &Vec<char>) -> (r: bool)
    ensures
        r == (s@ == v@),
{
    let sc = str_chars(s.as_str());
    chars_eq(&sc, v)
}

/// Every `'\\'` replaced by `'/'`, the separator normalization applied to
/// glob patterns and candidate names.
pub open spec fn slashify(s: Seq<char>) -> Seq<char> {
    s.map_values(|c: char| if c == '\\' { '/' } else { c })
}

pub fn slashify_chars(v: &Vec<char>) -> (r: Vec<char>)
    ensures
        r@ == slashify(v@),
{
    let n = v.len();
    let mut r: Vec<char> = Vec::new();
    let mut i: usize = 0;
    while i < n
        invariant
            i <= n,
            n == v@.len(),
            r@ =~= slashify(v@.subrange(0, i as int)),
        decreases n - i,
    {
        let c = v[i];
        if c == '\\' {
            r.push('/');
        } else {
            r.push(c);
        }
        i += 1;
        assert(r@ =~= slashify(v@.subrange(0, i as int)));
    }
    assert(v@.subrange(0, n as int) =~= v@);
    r
}

/// `slashify` applied to a string, returned as a string.
pub fn slashify_str(s: &str) -> (r: String)
    ensures
        r@ == slashify(s@),
{
    let v = str_chars(s);
    let w = slashify_chars(&v);
    chars_to_string(&w)
}

/// `push`, with the effect stated on the deep view.
pub fn push_deep<T: DeepView>(out: &mut Vec<T>, item: T)
    ensures
        final(out).deep_view() == old(out).deep_view().push(item.deep_view()),
{
    let ghost p = item.deep_view();
    let ghost before = out.deep_view();
    out.push(item);
    proof {
        assert forall|k: int| 0 <= k < out@.len() implies out.deep_view()[k] == before.push(p)[k]
        by {
            if k < old(out)@.len() {
                assert(out@[k] == old(out)@[k]);
                assert(before[k] == old(out)@[k].deep_view());
            } else {
                assert(out@[k] == out@[out@.len() - 1]);
            }
        }
        assert(out.deep_view() =~= before.push(p));
    }
}

/// `append`, with the effect stated on the deep views.
pub fn append_deep<T: DeepView>(out: &mut Vec<T>, other: &mut Vec<T>)
    ensures
        final(out).deep_view() == old(out).deep_view() + old(other).deep_view(),
        final(other)@.len() == 0,
{
    let ghost a = out.deep_view();
    let ghost b = other.deep_view();
    out.append(other);
    proof {
        assert forall|k: int| 0 <= k < out@.len() implies out.deep_view()[k] == (a + b)[k] by {
            if k < old(out)@.len() {
                assert(out@[k] == old(out)@[k]);
                assert(a[k] == old(out)@[k].deep_view());
            } else {
                assert(out@[k] == old(other)@[k - old(out)@.len()]);
                assert(b[k - old(out)@.len()] == old(other)@[k - old(out)@.len()].deep_view());
            }
        }
        assert(out.deep_view() =~= a + b);
    }
}

/// Whether `sep` occurs in `s` at position `j`.
pub open spec fn occurs_at(s: Seq<char>, sep: Seq<char>, j: int) -> bool {
    0 <= j && j + sep.len() <= s.len() && s.subrange(j, j + sep.len()) == sep
}

/// The least position at which `sep` occurs in `s`, if any.
pub open spec fn find_sub(s: Seq<char>, sep: Seq<char>) -> Option<int>
    decreases s.len(),
{
    if has_prefix(s, sep) {
        Some(0int)
    } else if s.len() == 0 {
        None
    } else {
        match find_sub(s.drop_first(), sep) {
            Some(i) => Some(i + 1),
            None => None,
        }
    }
}

proof fn lemma_find_sub_at(s: Seq<char>, sep: Seq<char>, n: int)
    requires
        sep.len() > 0,
        0 <= n <= s.len(),
        forall|j: int| 0 <= j < n ==> !occurs_at(s, sep, j),
        occurs_at(s, sep, n) || (n == s.len() && forall|j: int| 0 <= j <= s.len() ==> !occurs_at(
            s,
            sep,
            j,
        )),
    ensures
        occurs_at(s, sep, n) ==> find_sub(s, sep) == Some(n),
        !occurs_at(s, sep, n) ==> find_sub(s, sep) is None,
    decreases n,
{
    assert(has_prefix(s, sep) == occurs_at(s, sep, 0));
    if n == 0 {
        if !occurs_at(s, sep, 0) {
            if s.len() == 0 {
            } else {
                let t = s.drop_first();
                assert(forall|j: int|
                    0 <= j <= t.len() ==> #[trigger] occurs_at(t, sep, j) == occurs_at(
                        s,
                        sep,
                        j + 1,
                    )) by {
                    assert forall|j: int| 0 <= j <= t.len() implies #[trigger] occurs_at(t, sep, j)
                        == occurs_at(s, sep, j + 1) by {
                        if j + sep.len() <= t.len() {
                            assert(t.subrange(j, j + sep.len()) =~= s.subrange(
                                j + 1,
                                j + 1 + sep.len(),
                            ));
                        }
                    }
                }
                lemma_find_sub_at(t, sep, t.len() as int);
            }
        }
    } else {
        assert(!occurs_at(s, sep, 0));
        let t = s.drop_first();
        assert(forall|j: int|
            0 <= j <= t.len() ==> #[trigger] occurs_at(t, sep, j) == occurs_at(s, sep, j + 1)) by {
            assert forall|j: int| 0 <= j <= t.len() implies #[trigger] occurs_at(t, sep, j)
                == occurs_at(s, sep, j + 1) by {
                if j + sep.len() <= t.len() {
                    assert(t.subrange(j, j + sep.len()) =~= s.subrange(j + 1, j + 1 + sep.len()));
                }
            }
        }
        lemma_find_sub_at(t, sep, n - 1);
    }
}

proof fn lemma_find_sub_bounds(s: Seq<char>, sep: Seq<char>)
    requires
        sep.len() > 0,
        find_sub(s, sep) is Some,
    ensures
        0 <= find_sub(s, sep)->0,
        find_sub(s, sep)->0 + sep.len() <= s.len(),
    decreases s.len(),
{
    if has_prefix(s, sep) {
    } else if s.len() == 0 {
    } else {
        lemma_find_sub_bounds(s.drop_first(), sep);
    }
}

/// `s` split on `sep` into the pieces between the non-overlapping, leftmost
/// occurrences. With no occurrence (or an empty separator) the whole text is
/// one piece.
pub open spec fn split_on(s: Seq<char>, sep: Seq<char>) -> Seq<Seq<char>>
    decreases s.len(),
{
    if sep.len() == 0 || s.len() == 0 {
        seq![s]
    } else {
        match find_sub(s, sep) {
            None => seq![s],
            Some(i) => {
                let cut = if i + sep.len() <= s.len() {
                    i + sep.len()
                } else {
                    s.len() as int
                };
                let cut2 = if cut < 1 {
                    1int
                } else {
                    cut
                };
                seq![s.take(i)] + split_on(s.skip(cut2), sep)
            },
        }
    }
}

/// The pieces joined with `sep` between them.
pub open spec fn join_with(segs: Seq<Seq<char>>, sep: Seq<char>) -> Seq<char>
    decreases segs.len(),
{
    if segs.len() == 0 {
        Seq::<char>::empty()
    } else if segs.len() == 1 {
        segs[0]
    } else {
        segs[0] + sep + join_with(segs.drop_first(), sep)
    }
}

/// Whether `sep` occurs in `v` at position `j`.
pub fn occurs_check(v: &Vec<char>, sep: &Vec<char>, j: usize) -> (r: bool)
    requires
        j <= v@.len(),
    ensures
        r == occurs_at(v@, sep@, j as int),
{
    let m = sep.len();
    if m > v.len() - j {
        assert(!occurs_at(v@, sep@, j as int));
        return false;
    }
    let mut i: usize = 0;
    while i < m
        invariant
            i <= m,
            m == sep@.len(),
            j + m <= v@.len(),
            v@.len() <= usize::MAX,
            forall|t: int| 0 <= t < i ==> v@[j + t] == sep@[t],
        decreases m - i,
    {
        assert(j + i < v@.len());
        if v[j + i] != sep[i] {
            assert(v@.subrange(j as int, j as int + sep@.len())[i as int] != sep@[i as int]);
            return false;
        }
        i += 1;
    }
    proof {
        assert(v@.subrange(j as int, j as int + sep@.len()) =~= sep@);
    }
    true
}

/// The least position at or after `from` at which `sep` occurs, if any.
fn find_sub_from(v: &Vec<char>, sep: &Vec<char>, from: usize) -> (r: Option<usize>)
    requires
        sep@.len() > 0,
        from <= v@.len(),
    ensures
        ({
            let sp = find_sub(v@.skip(from as int), sep@);
            match r {
                Some(j) => from <= j && sp == Some(j - from) && occurs_at(v@, sep@, j as int),
                None => sp is None,
            }
        }),
{
    let ghost t = v@.skip(from as int);
    let n = v.len();
    let mut j: usize = from;
    while j < n
        invariant
            from <= j <= n,
            n == v@.len(),
            sep@.len() > 0,
            forall|i: int| from <= i < j ==> !occurs_at(v@, sep@, i),
        decreases n - j,
    {
        if occurs_check(v, sep, j) {
            proof {
                let t2 = v@.skip(from as int);
                assert forall|i: int|
                    0 <= i <= t2.len() implies #[trigger] occurs_at(t2, sep@, i) == occurs_at(
                    v@,
                    sep@,
                    from + i,
                ) by {
                    if i + sep@.len() <= t2.len() {
                        assert(t2.subrange(i, i + sep@.len()) =~= v@.subrange(
                            from + i,
                            from + i + sep@.len(),
                        ));
                    }
                }
                assert(occurs_at(t2, sep@, j - from));
                lemma_find_sub_at(t2, sep@, j - from);
            }
            return Some(j);
        }
        j += 1;
    }
    proof {
        let t2 = v@.skip(from as int);
        assert forall|i: int|
            0 <= i <= t2.len() implies #[trigger] occurs_at(t2, sep@, i) == occurs_at(
            v@,
            sep@,
            from + i,
        ) by {
            if i + sep@.len() <= t2.len() {
                assert(t2.subrange(i, i + sep@.len()) =~= v@.subrange(
                    from + i,
                    from + i + sep@.len(),
                ));
            }
        }
        lemma_find_sub_at(t2, sep@, t2.len() as int);
        assert(!occurs_at(t2, sep@, t2.len() as int));
    }
    None
}

fn split_chars_from(v: &Vec<char>, sep: &Vec<char>, from: usize) -> (r: Vec<Vec<char>>)
    requires
        sep@.len() > 0,
        from <= v@.len(),
    ensures
        r.deep_view() == split_on(v@.skip(from as int), sep@),
    decreases v@.len() - from,
{
    let ghost t = v@.skip(from as int);
    if from == v.len() {
        let mut r: Vec<Vec<char>> = Vec::new();
        r.push(Vec::new());
        proof {
            assert(t.len() == 0);
            assert(r.deep_view() =~~= seq![t]);
        }
        return r;
    }
    match find_sub_from(v, sep, from) {
        None => {
            let piece = subrange_chars(v, from, v.len());
            let mut r: Vec<Vec<char>> = Vec::new();
            r.push(piece);
            proof {
                assert(piece@ =~= t);
                assert(r.deep_view() =~~= seq![t]);
            }
            r
        },
        Some(j) => {
            proof {
                lemma_find_sub_bounds(t, sep@);
            }
            let piece = subrange_chars(v, from, j);
            let next = j + sep.len();
            let rest = split_chars_from(v, sep, next);
            let mut r: Vec<Vec<char>> = Vec::new();
            r.push(piece);
            let mut rest_mut = rest;
            r.append(&mut rest_mut);
            proof {
                let i = j - from;
                assert(t.take(i as int) =~= v@.subrange(from as int, j as int));
                assert(t.skip(i + sep@.len()) =~= v@.skip(next as int));
                assert(r.deep_view() =~~= seq![piece@] + split_on(v@.skip(next as int), sep@));
                assert(split_on(t, sep@) == seq![t.take(i as int)] + split_on(
                    t.skip(i + sep@.len()),
                    sep@,
                ));
            }
            r
        },
    }
}

/// `v` split on `sep` into the pieces between its occurrences.
pub fn split_chars(v: &Vec<char>, sep: &Vec<char>) -> (r: Vec<Vec<char>>)
    requires
        sep@.len() > 0,
    ensures
        r.deep_view() == split_on(v@, sep@),
{
    proof {
        assert(v@.skip(0) =~= v@);
    }
    split_chars_from(v, sep, 0)
}

/// The pieces joined with `sep` between them.
pub fn join_chars(segs: &Vec<Vec<char>>, sep: &Vec<char>) -> (r: Vec<char>)
    ensures
        r@ == join_with(segs.deep_view(), sep@),
    decreases segs@.len(),
{
    let n = segs.len();
    if n == 0 {
        return Vec::new();
    }
    let mut out = subrange_chars(&segs[0], 0, segs[0].len());
    proof {
        assert(out@ =~= segs.deep_view()[0]);
    }
    let mut i: usize = 1;
    while i < n
        invariant
            1 <= i <= n,
            n == segs@.len(),
            out@ == join_with(segs.deep_view().take(i as int), sep@),
        decreases n - i,
    {
        let mut sep_copy = subrange_chars(sep, 0, sep.len());
        proof {
            assert(sep_copy@ =~= sep@);
        }
        out.append(&mut sep_copy);
        let mut piece = subrange_chars(&segs[i], 0, segs[i].len());
        proof {
            assert(piece@ =~= segs.deep_view()[i as int]);
        }
        out.append(&mut piece);
        proof {
            lemma_join_with_take(segs.deep_view(), sep@, i as int);
        }
        i += 1;
    }
    proof {
        assert(segs.deep_view().take(n as int) =~= segs.deep_view());
    }
    out
}

proof fn lemma_join_with_take(segs: Seq<Seq<char>>, sep: Seq<char>, i: int)
    requires
        1 <= i < segs.len(),
    ensures
        join_with(segs.take(i + 1), sep) == join_with(segs.take(i), sep) + sep + segs[i],
    decreases i,
{
    let a = segs.take(i + 1);
    let b = segs.take(i);
    if i == 1 {
        assert(a.drop_first() =~= seq![segs[1]]);
        assert(b =~= seq![segs[0]]);
        assert(join_with(a, sep) == a[0] + sep + join_with(a.drop_first(), sep));
        assert(join_with(a, sep) =~= join_with(b, sep) + sep + segs[1]);
    } else {
        lemma_join_with_take(segs.drop_first(), sep, i - 1);
        assert(segs.drop_first().take(i) =~= a.drop_first());
        assert(segs.drop_first().take(i - 1) =~= b.drop_first());
        assert(segs.drop_first()[i - 1] == segs[i]);
        assert(join_with(a, sep) == a[0] + sep + join_with(a.drop_first(), sep));
        assert(join_with(b, sep) == b[0] + sep + join_with(b.drop_first(), sep));
        assert(join_with(a, sep) =~= join_with(b, sep) + sep + segs[i]);
    }
}

} // verus!
