//! Resolution of a target's file set: candidate file names are matched
//! against include patterns and exclude patterns. The pattern matching
//! itself is the glob crate's; everything around it is verified.

use vstd::prelude::*;
use crate::model::{BuildError, Filters};
use crate::text::{slashify, slashify_str};

verus! {

/// Whether the glob crate accepts this pattern.
pub uninterp spec fn glob_pattern_ok(pat: Seq<char>) -> bool;

/// Whether this pattern matches this name, for a pattern the glob crate
/// accepts.
pub uninterp spec fn glob_matches(pat: Seq<char>, name: Seq<char>) -> bool;

/// Relies on glob::Pattern::new and glob::Pattern::matches: whether the
/// pattern compiles, and whether it then matches the name, are functions of
/// the two strings alone. An uncompilable pattern yields `None`.
#[verifier::external_body]
fn glob_match(pattern: &str, name: &str) -> (r: Option<bool>)
    ensures
        r == if glob_pattern_ok(pattern@) {
            Some(glob_matches(pattern@, name@))
        } else {
            None::<bool>
        },
{
    match glob::Pattern::new(pattern) {
        Ok(p) => Some(p.matches(name)),
        Err(_) => None,
    }
}

/// Whether every pattern in the list compiles, after `\` is normalized to
/// `/`.
pub open spec fn spec_all_ok(pats: Seq<String>) -> bool {
    forall|i: int| 0 <= i < pats.len() ==> glob_pattern_ok(slashify(#[trigger] pats[i]@))
}

/// Whether some pattern in the list matches the name.
pub open spec fn spec_any_match(pats: Seq<String>, name: Seq<char>) -> bool {
    exists|i: int| 0 <= i < pats.len() && glob_matches(slashify(#[trigger] pats[i]@), name)
}

/// Whether the filters admit a name: included by some pattern (or by an
/// empty pattern list) and excluded by none.
pub open spec fn spec_selected(f: Option<Filters>, name: Seq<char>) -> bool {
    match f {
        None => true,
        Some(ff) => (ff.patterns@.len() == 0 || spec_any_match(ff.patterns@, slashify(name))) && !(
        ff.exclude@.len() > 0 && spec_any_match(ff.exclude@, slashify(name))),
    }
}

/// The names the filters admit, in their given order.
pub open spec fn spec_find_files(names: Seq<String>, f: Option<Filters>) -> Seq<String>
    decreases names.len(),
{
    if names.len() == 0 {
        Seq::<String>::empty()
    } else {
        (if spec_selected(f, names[0]@) {
            seq![names[0]]
        } else {
            Seq::<String>::empty()
        }) + spec_find_files(names.drop_first(), f)
    }
}

/// Whether `p` spells a pattern of the list that the glob crate refuses.
pub open spec fn names_bad_pattern(pats: Seq<String>, p: String) -> bool {
    exists|i: int|
        0 <= i < pats.len() && p@ == (#[trigger] pats[i])@ && !glob_pattern_ok(slashify(pats[i]@))
}

/// The first pattern in the list that the glob crate refuses, if any.
fn check_patterns(pats: &Vec<String>) -> (r: Result<(), BuildError>)
    ensures
        match r {
            Ok(()) => spec_all_ok(pats@),
            Err(e) => !spec_all_ok(pats@) && (e matches BuildError::PatternInvalid(p)
                && names_bad_pattern(pats@, p)),
        },
{
    let n = pats.len();
    let mut i: usize = 0;
    while i < n
        invariant
            i <= n,
            n == pats@.len(),
            forall|j: int| 0 <= j < i ==> glob_pattern_ok(slashify(#[trigger] pats@[j]@)),
        decreases n - i,
    {
        let sp = slashify_str(pats[i].as_str());
        match glob_match(sp.as_str(), "") {
            Some(_) => {},
            None => {
                let bad = pats[i].clone();
                proof {
                    assert(bad@ == (pats@[i as int])@ && !glob_pattern_ok(
                        slashify(pats@[i as int]@),
                    ));
                }
                return Err(BuildError::PatternInvalid(bad));
            },
        }
        i += 1;
    }
    Ok(())
}

/// Whether some pattern matches the name; every pattern must be known to
/// compile.
fn any_match(pats: &Vec<String>, name: &str) -> (r: bool)
    requires
        spec_all_ok(pats@),
    ensures
        r == spec_any_match(pats@, name@),
{
    let n = pats.len();
    let mut i: usize = 0;
    while i < n
        invariant
            i <= n,
            n == pats@.len(),
            spec_all_ok(pats@),
            forall|j: int| 0 <= j < i ==> !glob_matches(slashify(#[trigger] pats@[j]@), name@),
        decreases n - i,
    {
        let sp = slashify_str(pats[i].as_str());
        match glob_match(sp.as_str(), name) {
            Some(b) => {
                if b {
                    return true;
                }
            },
            None => {
                proof {
                    assert(glob_pattern_ok(slashify(pats@[i as int]@)));
                    assert(false);
                }
            },
        }
        i += 1;
    }
    false
}

/// The candidate names the filters admit, in traversal order. Fails with the
/// first include or exclude pattern that the glob crate refuses.
pub fn find_files(names: &Vec<String>, filters: Option<&Filters>) -> (r: Result<
    Vec<String>,
    BuildError,
>)
    ensures
        ({
            let f = match filters {
                Some(ff) => Some(*ff),
                None => None,
            };
            match r {
                Ok(out) => out@ == spec_find_files(names@, f) && (f matches Some(ff) ==>
                    spec_all_ok(ff.patterns@) && spec_all_ok(ff.exclude@)),
                Err(e) => f matches Some(ff) && (e matches BuildError::PatternInvalid(p) && (
                names_bad_pattern(ff.patterns@, p) || (spec_all_ok(ff.patterns@)
                    && names_bad_pattern(ff.exclude@, p)))),
            }
        }),
{
    let ghost f = match filters {
        Some(ff) => Some(*ff),
        None => None,
    };
    let mut out: Vec<String> = Vec::new();
    match filters {
        None => {
            let n = names.len();
            let mut i: usize = 0;
            while i < n
                invariant
                    i <= n,
                    n == names@.len(),
                    out@ == spec_find_files(names@.take(i as int), None::<Filters>),
                decreases n - i,
            {
                proof {
                    lemma_find_files_take(names@, None::<Filters>, i as int);
                }
                out.push(names[i].clone());
                proof {
                    assert(out@ =~= spec_find_files(names@.take(i + 1), None::<Filters>));
                }
                i += 1;
            }
            proof {
                assert(names@.take(n as int) =~= names@);
            }
            Ok(out)
        },
        Some(ff) => {
            match check_patterns(&ff.patterns) {
                Ok(()) => {},
                Err(e) => {
                    return Err(e);
                },
            }
            match check_patterns(&ff.exclude) {
                Ok(()) => {},
                Err(e) => {
                    return Err(e);
                },
            }
            let n = names.len();
            let mut i: usize = 0;
            while i < n
                invariant
                    i <= n,
                    n == names@.len(),
                    spec_all_ok(ff.patterns@),
                    spec_all_ok(ff.exclude@),
                    f matches Some(fv) && fv == *ff,
                    out@ == spec_find_files(names@.take(i as int), f),
                decreases n - i,
            {
                proof {
                    lemma_find_files_take(names@, f, i as int);
                }
                let name_norm = slashify_str(names[i].as_str());
                let included = ff.patterns.len() == 0 || any_match(
                    &ff.patterns,
                    name_norm.as_str(),
                );
                let excluded = ff.exclude.len() > 0 && any_match(&ff.exclude, name_norm.as_str());
                if included && !excluded {
                    out.push(names[i].clone());
                    proof {
                        assert(spec_selected(f, names@[i as int]@));
                        assert(out@ =~= spec_find_files(names@.take(i + 1), f));
                    }
                } else {
                    proof {
                        assert(!spec_selected(f, names@[i as int]@));
                        assert(out@ =~= spec_find_files(names@.take(i + 1), f));
                    }
                }
                i += 1;
            }
            proof {
                assert(names@.take(n as int) =~= names@);
            }
            Ok(out)
        },
    }
}

proof fn lemma_find_files_take(names: Seq<String>, f: Option<Filters>, i: int)
    requires
        0 <= i < names.len(),
    ensures
        spec_find_files(names.take(i + 1), f) == spec_find_files(names.take(i), f) + (if
        spec_selected(f, names[i]@) {
            seq![names[i]]
        } else {
            Seq::<String>::empty()
        }),
    decreases i,
{
    let a = names.take(i + 1);
    let b = names.take(i);
    if i == 0 {
        assert(a.drop_first() =~= Seq::<String>::empty());
        assert(b =~= Seq::<String>::empty());
        assert(spec_find_files(a, f) =~= spec_find_files(b, f) + (if spec_selected(f, names[0]@) {
            seq![names[0]]
        } else {
            Seq::<String>::empty()
        }));
    } else {
        lemma_find_files_take(names.drop_first(), f, i - 1);
        assert(names.drop_first().take(i) =~= a.drop_first());
        assert(names.drop_first().take(i - 1) =~= b.drop_first());
        assert(names.drop_first()[i - 1] == names[i]);
        assert(spec_find_files(a, f) =~= spec_find_files(b, f) + (if spec_selected(f, names[i]@) {
            seq![names[i]]
        } else {
            Seq::<String>::empty()
        }));
    }
}

} // verus!
