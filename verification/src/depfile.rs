//! Parsing of compiler-written dependency listings. A configurable format
//! drops lines at either end, trims conditional prefixes and suffixes, and
//! splits what remains into bare path tokens.

use vstd::prelude::*;
use crate::model::{Format, FormatRule};
use crate::paths::drop_empty;
use crate::text::{
    has_prefix, has_suffix, spec_trim, split_on, str_chars, chars_to_string, trim_chars,
    subrange_chars, split_chars, chars_has_prefix, chars_has_suffix,
};

verus! {

/// The conditional prefix trim of a format rule applied to a line.
pub open spec fn apply_start_trim(line: Seq<char>, rule: Option<FormatRule>) -> Seq<char> {
    match rule {
        Some(r) => match r.trim {
            Some(t) => if has_prefix(line, t.condition@) {
                if line.len() >= t.remove {
                    line.skip(t.remove as int)
                } else {
                    Seq::<char>::empty()
                }
            } else {
                line
            },
            None => line,
        },
        None => line,
    }
}

/// The conditional suffix trim of a format rule applied to a line.
pub open spec fn apply_end_trim(line: Seq<char>, rule: Option<FormatRule>) -> Seq<char> {
    match rule {
        Some(r) => match r.trim {
            Some(t) => if has_suffix(line, t.condition@) {
                if line.len() >= t.remove {
                    line.take(line.len() - t.remove)
                } else {
                    Seq::<char>::empty()
                }
            } else {
                line
            },
            None => line,
        },
        None => line,
    }
}

/// The tokens one line contributes: trim, conditional trims, trim again,
/// then split; empty tokens are discarded.
pub open spec fn line_tokens(line: Seq<char>, fmt: Format) -> Seq<Seq<char>> {
    let t0 = spec_trim(line);
    let t1 = apply_start_trim(t0, fmt.start);
    let t2 = apply_end_trim(t1, fmt.end);
    let t3 = spec_trim(t2);
    if t3.len() == 0 {
        Seq::<Seq<char>>::empty()
    } else {
        match fmt.split {
            Some(sep) => if sep@.len() > 0 {
                drop_empty(split_on(t3, sep@))
            } else {
                seq![t3]
            },
            None => seq![t3],
        }
    }
}

/// The tokens of a line list, in order.
pub open spec fn tokens_of(lines: Seq<String>, fmt: Format) -> Seq<Seq<char>>
    decreases lines.len(),
{
    if lines.len() == 0 {
        Seq::<Seq<char>>::empty()
    } else {
        line_tokens(lines[0]@, fmt) + tokens_of(lines.drop_first(), fmt)
    }
}

/// What a dependency listing parses to: the ignored lines at either end are
/// dropped (everything, if the listing is shorter than what is ignored), and
/// the remaining lines contribute their tokens in order.
pub open spec fn spec_parse_deps(lines: Seq<String>, fmt: Format) -> Seq<Seq<char>> {
    let start_skip = match fmt.start {
        Some(r) => r.ignore_lines as int,
        None => 0,
    };
    let end_skip = match fmt.end {
        Some(r) => r.ignore_lines as int,
        None => 0,
    };
    if lines.len() < start_skip + end_skip {
        Seq::<Seq<char>>::empty()
    } else {
        tokens_of(lines.subrange(start_skip, lines.len() - end_skip), fmt)
    }
}

proof fn lemma_tokens_of_take(lines: Seq<String>, fmt: Format, i: int)
    requires
        0 <= i < lines.len(),
    ensures
        tokens_of(lines.take(i + 1), fmt) == tokens_of(lines.take(i), fmt) + line_tokens(
            lines[i]@,
            fmt,
        ),
    decreases i,
{
    let a = lines.take(i + 1);
    let b = lines.take(i);
    if i == 0 {
        assert(a.drop_first() =~= Seq::<String>::empty());
        assert(b =~= Seq::<String>::empty());
        assert(tokens_of(a, fmt) =~= tokens_of(b, fmt) + line_tokens(lines[0]@, fmt));
    } else {
        lemma_tokens_of_take(lines.drop_first(), fmt, i - 1);
        assert(lines.drop_first().take(i) =~= a.drop_first());
        assert(lines.drop_first().take(i - 1) =~= b.drop_first());
        assert(lines.drop_first()[i - 1] == lines[i]);
        assert(tokens_of(a, fmt) =~= tokens_of(b, fmt) + line_tokens(lines[i]@, fmt));
    }
}

fn one_line_tokens(line: &String, fmt: &Format) -> (r: Vec<String>)
    ensures
        r.deep_view() == line_tokens(line@, *fmt),
{
    let v = str_chars(line.as_str());
    let t0 = trim_chars(&v);
    let t1 = match &fmt.start {
        Some(r) => match &r.trim {
            Some(t) => {
                let cond = str_chars(t.condition.as_str());
                if chars_has_prefix(&t0, &cond) {
                    let n = t.remove as usize;
                    if t0.len() >= n {
                        let w = subrange_chars(&t0, n, t0.len());
                        proof {
                            assert(w@ =~= t0@.skip(t.remove as int));
                        }
                        w
                    } else {
                        Vec::new()
                    }
                } else {
                    t0
                }
            },
            None => t0,
        },
        None => t0,
    };
    proof {
        assert(t1@ =~= apply_start_trim(spec_trim(line@), fmt.start));
    }
    let t2 = match &fmt.end {
        Some(r) => match &r.trim {
            Some(t) => {
                let cond = str_chars(t.condition.as_str());
                if chars_has_suffix(&t1, &cond) {
                    let n = t.remove as usize;
                    if t1.len() >= n {
                        let w = subrange_chars(&t1, 0, t1.len() - n);
                        proof {
                            assert(w@ =~= t1@.take(t1@.len() - t.remove));
                        }
                        w
                    } else {
                        Vec::new()
                    }
                } else {
                    t1
                }
            },
            None => t1,
        },
        None => t1,
    };
    proof {
        assert(t2@ =~= apply_end_trim(t1@, fmt.end));
    }
    let t3 = trim_chars(&t2);
    let mut out: Vec<String> = Vec::new();
    if t3.len() == 0 {
        proof {
            assert(out.deep_view() =~~= line_tokens(line@, *fmt));
        }
        return out;
    }
    match &fmt.split {
        Some(sep) => {
            let sepc = str_chars(sep.as_str());
            if sepc.len() > 0 {
                let pieces = split_chars(&t3, &sepc);
                let n = pieces.len();
                let mut i: usize = 0;
                while i < n
                    invariant
                        i <= n,
                        n == pieces@.len(),
                        pieces.deep_view() == split_on(t3@, sep@),
                        out.deep_view() == drop_empty(pieces.deep_view().take(i as int)),
                    decreases n - i,
                {
                    proof {
                        crate::paths::lemma_drop_empty_take(pieces.deep_view(), i as int);
                    }
                    if pieces[i].len() > 0 {
                        let s = chars_to_string(&pieces[i]);
                        proof {
                            assert(pieces.deep_view()[i as int] =~= pieces@[i as int]@);
                        }
                        crate::text::push_deep(&mut out, s);
                        proof {
                            assert(out.deep_view() =~= drop_empty(
                                pieces.deep_view().take(i + 1),
                            ));
                        }
                    } else {
                        proof {
                            assert(out.deep_view() =~= drop_empty(
                                pieces.deep_view().take(i + 1),
                            ));
                        }
                    }
                    i += 1;
                }
                proof {
                    assert(pieces.deep_view().take(n as int) =~= pieces.deep_view());
                    assert(out.deep_view() =~= line_tokens(line@, *fmt));
                }
            } else {
                let s = chars_to_string(&t3);
                proof {
                    assert(out.deep_view() =~~= Seq::<Seq<char>>::empty());
                }
                crate::text::push_deep(&mut out, s);
                proof {
                    assert(out.deep_view() =~= seq![t3@]);
                    assert(out.deep_view() =~= line_tokens(line@, *fmt));
                }
            }
        },
        None => {
            let s = chars_to_string(&t3);
            proof {
                assert(out.deep_view() =~~= Seq::<Seq<char>>::empty());
            }
            crate::text::push_deep(&mut out, s);
            proof {
                assert(out.deep_view() =~= seq![t3@]);
                assert(out.deep_view() =~= line_tokens(line@, *fmt));
            }
        },
    }
    out
}

/// Parses a dependency listing, given as its lines, into bare path tokens.
pub fn parse_deps(lines: &Vec<String>, format: &Format) -> (r: Vec<String>)
    ensures
        r.deep_view() == spec_parse_deps(lines@, *format),
{
    let start_skip: usize = match &format.start {
        Some(r) => r.ignore_lines as usize,
        None => 0,
    };
    let end_skip: usize = match &format.end {
        Some(r) => r.ignore_lines as usize,
        None => 0,
    };
    let mut out: Vec<String> = Vec::new();
    if lines.len() < start_skip || lines.len() - start_skip < end_skip {
        proof {
            assert(out.deep_view() =~~= spec_parse_deps(lines@, *format));
        }
        return out;
    }
    let stop = lines.len() - end_skip;
    let ghost mid = lines@.subrange(start_skip as int, stop as int);
    let mut i: usize = start_skip;
    proof {
        assert(mid.take(0) =~= Seq::<String>::empty());
    }
    while i < stop
        invariant
            start_skip <= i <= stop <= lines@.len(),
            mid == lines@.subrange(start_skip as int, stop as int),
            out.deep_view() == tokens_of(mid.take(i - start_skip), *format),
        decreases stop - i,
    {
        proof {
            lemma_tokens_of_take(mid, *format, i - start_skip);
            assert(mid[i - start_skip] == lines@[i as int]);
        }
        let toks = one_line_tokens(&lines[i], format);
        let mut toks_mut = toks;
        crate::text::append_deep(&mut out, &mut toks_mut);
        i += 1;
    }
    proof {
        assert(mid.take(stop - start_skip) =~= mid);
    }
    out
}

} // verus!
