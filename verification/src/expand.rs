//! The variable expander. A template is scanned left to right; `${…}` opens a
//! placeholder that ends at the next `}` (or at the end of the template), and
//! the captured, trimmed key is resolved. Static expansion resolves keys
//! against prefix-identified scopes and passes `NAME`, `INPUT` and `OUTPUT`
//! through for a later pass; per-invocation expansion resolves every key
//! against one flat map or fails.

use vstd::prelude::*;
use vstd::string::*;
use crate::model::Environment;
use crate::table::{assoc_get, assoc_find_chars};
use crate::text::{
    has_prefix, spec_trim, str_chars, chars_to_string, trim_chars, subrange_chars,
    chars_has_prefix, chars_eq,
};

verus! {

/// Failure of an expansion: a key whose scope is not bound, or a key that no
/// bound scope or map resolves.
#[derive(Debug)]
pub enum ExpandError {
    MissingVariable(String),
    UnknownVariable(String),
}

/// The number of characters before the first `}`, or the length if there is
/// none.
pub open spec fn close_off(s: Seq<char>) -> nat
    decreases s.len(),
{
    if s.len() == 0 {
        0
    } else if s[0] == '}' {
        0
    } else {
        1 + close_off(s.drop_first())
    }
}

proof fn lemma_close_off_at(s: Seq<char>, n: int)
    requires
        0 <= n <= s.len(),
        forall|j: int| 0 <= j < n ==> s[j] != '}',
        n < s.len() ==> s[n] == '}',
    ensures
        close_off(s) == n,
    decreases n,
{
    if n == 0 {
    } else {
        assert(s[0] != '}');
        let t = s.drop_first();
        assert(forall|j: int| 0 <= j < n - 1 ==> #[trigger] t[j] == s[j + 1]);
        lemma_close_off_at(t, n - 1);
    }
}

/// The index of the first `}` at or after `from`, or the length if none.
fn find_close(v: &Vec<char>, from: usize) -> (k: usize)
    requires
        from <= v@.len(),
    ensures
        from <= k <= v@.len(),
        k - from == close_off(v@.skip(from as int)),
        k < v@.len() ==> v@[k as int] == '}',
{
    let n = v.len();
    let mut k = from;
    while k < n && v[k] != '}'
        invariant
            from <= k <= n,
            n == v@.len(),
            forall|j: int| from <= j < k ==> v@[j] != '}',
        decreases n - k,
    {
        k += 1;
    }
    proof {
        let t = v@.skip(from as int);
        assert(forall|j: int| 0 <= j < k - from ==> #[trigger] t[j] == v@[from + j]);
        lemma_close_off_at(t, k as int - from as int);
    }
    k
}

/// Per-invocation (flat) expansion: every `${key}` must resolve in `vars`;
/// the error carries the first key that does not.
pub open spec fn flat_expand(s: Seq<char>, vars: Seq<(String, String)>) -> Result<
    Seq<char>,
    Seq<char>,
>
    decreases s.len(),
{
    if s.len() == 0 {
        Ok(Seq::<char>::empty())
    } else if s.len() >= 2 && s[0] == '$' && s[1] == '{' {
        let tail = s.skip(2);
        let off = close_off(tail);
        let key = spec_trim(tail.take(off as int));
        let rest = if off < tail.len() {
            tail.skip(off as int + 1)
        } else {
            Seq::<char>::empty()
        };
        match assoc_get(vars, key) {
            Some(val) => match flat_expand(rest, vars) {
                Ok(r) => Ok(val@ + r),
                Err(e) => Err(e),
            },
            None => Err(key),
        }
    } else {
        match flat_expand(s.drop_first(), vars) {
            Ok(r) => Ok(seq![s[0]] + r),
            Err(e) => Err(e),
        }
    }
}

fn flat_expand_from(v: &Vec<char>, start: usize, vars: &Vec<(String, String)>) -> (r: Result<
    Vec<char>,
    Vec<char>,
>)
    requires
        start <= v@.len(),
    ensures
        ({
            let sp = flat_expand(v@.skip(start as int), vars@);
            match r {
                Ok(out) => sp matches Ok(o) && out@ == o,
                Err(key) => sp matches Err(k) && key@ == k,
            }
        }),
    decreases v@.len() - start,
{
    let ghost s = v@.skip(start as int);
    if start >= v.len() {
        assert(s.len() == 0);
        return Ok(Vec::new());
    }
    assert(s[0] == v@[start as int]);
    if v[start] == '$' && start + 1 < v.len() && v[start + 1] == '{' {
        assert(s[1] == v@[start as int + 1]);
        assert(s.len() >= 2 && s[0] == '$' && s[1] == '{');
        let k = find_close(v, start + 2);
        let raw = subrange_chars(v, start + 2, k);
        let key = trim_chars(&raw);
        let ghost tail = s.skip(2);
        let ghost off = close_off(tail);
        proof {
            assert(tail =~= v@.skip(start as int + 2));
            assert(off == k - (start + 2));
            assert(tail.take(off as int) =~= v@.subrange(start as int + 2, k as int));
        }
        let next: usize = if k < v.len() {
            k + 1
        } else {
            k
        };
        proof {
            if k < v.len() {
                assert(off < tail.len());
                assert(tail.skip(off as int + 1) =~= v@.skip(next as int));
            } else {
                assert(off == tail.len());
                assert(v@.skip(next as int) =~= Seq::<char>::empty());
            }
        }
        match assoc_find_chars(vars, &key) {
            Some(val) => {
                match flat_expand_from(v, next, vars) {
                    Ok(rest) => {
                        let mut out = str_chars(val.as_str());
                        let mut tail_out = rest;
                        out.append(&mut tail_out);
                        Ok(out)
                    },
                    Err(e) => Err(e),
                }
            },
            None => Err(key),
        }
    } else {
        match flat_expand_from(v, start + 1, vars) {
            Ok(rest) => {
                let mut out: Vec<char> = Vec::new();
                out.push(v[start]);
                let mut tail_out = rest;
                out.append(&mut tail_out);
                proof {
                    assert(v@.skip(start as int + 1) =~= s.drop_first());
                    assert(out@ =~= seq![s[0]] + (flat_expand(s.drop_first(), vars@))->Ok_0);
                }
                Ok(out)
            },
            Err(e) => {
                proof {
                    assert(v@.skip(start as int + 1) =~= s.drop_first());
                }
                Err(e)
            },
        }
    }
}

/// Per-invocation expansion over a flat key-to-value map. Every `${key}` must
/// resolve; an unresolved key fails with `UnknownVariable`.
pub fn expand_string_with_vars(input: &str, vars: &Vec<(String, String)>) -> (r: Result<
    String,
    ExpandError,
>)
    ensures
        ({
            let sp = flat_expand(input@, vars@);
            match r {
                Ok(out) => sp matches Ok(o) && out@ == o,
                Err(ExpandError::UnknownVariable(key)) => sp matches Err(k) && key@ == k,
                Err(ExpandError::MissingVariable(_)) => false,
            }
        }),
{
    let v = str_chars(input);
    proof {
        assert(v@.skip(0) =~= input@);
    }
    match flat_expand_from(&v, 0, vars) {
        Ok(out) => Ok(chars_to_string(&out)),
        Err(key) => Err(ExpandError::UnknownVariable(chars_to_string(&key))),
    }
}

/// Rendering of a command template against a flat replacement map; the same
/// strict expansion as `expand_string_with_vars`.
pub fn replace_placeholders(s: &str, replacements: &Vec<(String, String)>) -> (r: Result<
    String,
    ExpandError,
>)
    ensures
        ({
            let sp = flat_expand(s@, replacements@);
            match r {
                Ok(out) => sp matches Ok(o) && out@ == o,
                Err(ExpandError::UnknownVariable(key)) => sp matches Err(k) && key@ == k,
                Err(ExpandError::MissingVariable(_)) => false,
            }
        }),
{
    expand_string_with_vars(s, replacements)
}

/// What resolving one key against one prefix-identified scope yields.
pub enum KeyResolution {
    NotHere,
    Missing,
    Unknown,
    Value(Seq<char>),
    Passthrough,
}

/// Whether two optional scopes carry the same environment, field view by
/// field view.
pub open spec fn same_env(a: Option<Environment>, b: Option<Environment>) -> bool {
    match (a, b) {
        (Option::None, Option::None) => true,
        (Option::Some(x), Option::Some(y)) => x.description@ == y.description@ && x.toolchain@
            == y.toolchain@ && x.build_dir@ == y.build_dir@ && x.vars@ == y.vars@,
        _ => false,
    }
}

/// The scopes a static expansion resolves against. `env` is the scope of the
/// `env.` prefix, `local_env` of `$env.`, `default_env` of `!env.`; `path`
/// and `project_root` serve `path.current` and `path.project_root`.
pub struct ExpandContext {
    pub default_env: Option<Environment>,
    pub env: Option<Environment>,
    pub local_env: Option<Environment>,
    pub path: Option<String>,
    pub project_root: Option<String>,
}

/// Resolution of `key` against one environment scope identified by `prefix`.
/// Within the scope, `toolchain` and `description` are reserved fields; any
/// other name is looked up among the environment's variables.
pub open spec fn resolve_in_env(
    oenv: Option<Environment>,
    key: Seq<char>,
    prefix: Seq<char>,
) -> KeyResolution {
    if !has_prefix(key, prefix) {
        KeyResolution::NotHere
    } else {
        match oenv {
            None => KeyResolution::Missing,
            Some(env) => {
                let stripped = key.skip(prefix.len() as int);
                if stripped == "toolchain"@ {
                    KeyResolution::Value(env.toolchain@)
                } else if stripped == "description"@ {
                    KeyResolution::Value(env.description@)
                } else {
                    match assoc_get(env.vars@, stripped) {
                        Some(val) => KeyResolution::Value(val@),
                        None => KeyResolution::Unknown,
                    }
                }
            },
        }
    }
}

/// Resolution of a key against the full scope list, in priority order.
pub open spec fn resolve_key(key: Seq<char>, ctx: ExpandContext) -> KeyResolution {
    let r1 = resolve_in_env(ctx.env, key, "env."@);
    if !(r1 is NotHere) {
        r1
    } else {
        let r2 = resolve_in_env(ctx.local_env, key, "$env."@);
        if !(r2 is NotHere) {
            r2
        } else {
            let r3 = resolve_in_env(ctx.default_env, key, "!env."@);
            if !(r3 is NotHere) {
                r3
            } else if has_prefix(key, "path."@) {
                let stripped = key.skip(5);
                if stripped == "current"@ {
                    match ctx.path {
                        Some(p) => KeyResolution::Value(p@),
                        None => KeyResolution::Missing,
                    }
                } else if stripped == "project_root"@ {
                    match ctx.project_root {
                        Some(p) => KeyResolution::Value(p@),
                        None => KeyResolution::Missing,
                    }
                } else {
                    KeyResolution::Unknown
                }
            } else if key == "NAME"@ || key == "INPUT"@ || key == "OUTPUT"@ {
                KeyResolution::Passthrough
            } else {
                KeyResolution::Unknown
            }
        }
    }
}

/// Failure of a static expansion, with the offending key.
pub enum StaticExpandFailure {
    Missing(Seq<char>),
    Unknown(Seq<char>),
}

/// Static template expansion: keys resolve against the context's scopes, and
/// the reserved names `NAME`, `INPUT` and `OUTPUT` are re-wrapped in `${…}`
/// for the later per-invocation pass.
pub open spec fn static_expand(s: Seq<char>, ctx: ExpandContext) -> Result<
    Seq<char>,
    StaticExpandFailure,
>
    decreases s.len(),
{
    if s.len() == 0 {
        Ok(Seq::<char>::empty())
    } else if s.len() >= 2 && s[0] == '$' && s[1] == '{' {
        let tail = s.skip(2);
        let off = close_off(tail);
        let key = spec_trim(tail.take(off as int));
        let rest = if off < tail.len() {
            tail.skip(off as int + 1)
        } else {
            Seq::<char>::empty()
        };
        match resolve_key(key, ctx) {
            KeyResolution::Value(val) => match static_expand(rest, ctx) {
                Ok(r) => Ok(val + r),
                Err(e) => Err(e),
            },
            KeyResolution::Passthrough => match static_expand(rest, ctx) {
                Ok(r) => Ok("${"@ + key + "}"@ + r),
                Err(e) => Err(e),
            },
            KeyResolution::Missing => Err(StaticExpandFailure::Missing(key)),
            KeyResolution::Unknown => Err(StaticExpandFailure::Unknown(key)),
            KeyResolution::NotHere => Err(StaticExpandFailure::Unknown(key)),
        }
    } else {
        match static_expand(s.drop_first(), ctx) {
            Ok(r) => Ok(seq![s[0]] + r),
            Err(e) => Err(e),
        }
    }
}

enum ScopeResolved {
    NotHere,
    Missing,
    Unknown,
    Value(String),
}

pub open spec fn env_of_ref(o: Option<&Environment>) -> Option<Environment> {
    match o {
        Some(e) => Some(*e),
        None => None,
    }
}

fn resolve_env_scope(key: &Vec<char>, prefix: &Vec<char>, oenv: Option<&Environment>) -> (r:
    ScopeResolved)
    ensures
        ({
            let sp = resolve_in_env(env_of_ref(oenv), key@, prefix@);
            match r {
                ScopeResolved::NotHere => sp is NotHere,
                ScopeResolved::Missing => sp is Missing,
                ScopeResolved::Unknown => sp is Unknown,
                ScopeResolved::Value(s) => sp matches KeyResolution::Value(v) && s@ == v,
            }
        }),
{
    if !chars_has_prefix(key, prefix) {
        return ScopeResolved::NotHere;
    }
    match oenv {
        None => ScopeResolved::Missing,
        Some(env) => {
            let stripped = subrange_chars(key, prefix.len(), key.len());
            proof {
                assert(stripped@ =~= key@.skip(prefix@.len() as int));
            }
            let toolchain_name = str_chars("toolchain");
            let description_name = str_chars("description");
            if chars_eq(&stripped, &toolchain_name) {
                ScopeResolved::Value(env.toolchain.clone())
            } else if chars_eq(&stripped, &description_name) {
                ScopeResolved::Value(env.description.clone())
            } else {
                match assoc_find_chars(&env.vars, &stripped) {
                    Some(val) => ScopeResolved::Value(val.clone()),
                    None => ScopeResolved::Unknown,
                }
            }
        },
    }
}

/// Resolves one key against one environment scope and appends the value to
/// `result`. `Ok(true)` means the key belonged to this scope and was
/// appended; `Ok(false)` that the prefix did not apply.
pub fn push_var_from_env(
    key: &str,
    prefix: &str,
    maybe_env: Option<&Environment>,
    result: &mut String,
) -> (r: Result<bool, ExpandError>)
    ensures
        ({
            let sp = resolve_in_env(env_of_ref(maybe_env), key@, prefix@);
            match r {
                Ok(b) => if b {
                    sp matches KeyResolution::Value(v) && final(result)@ == old(result)@ + v
                } else {
                    sp is NotHere && final(result)@ == old(result)@
                },
                Err(ExpandError::MissingVariable(k)) => sp is Missing && k@ == key@
                    && final(result)@ == old(result)@,
                Err(ExpandError::UnknownVariable(k)) => sp is Unknown && k@ == key@
                    && final(result)@ == old(result)@,
            }
        }),
{
    let kv = str_chars(key);
    let pv = str_chars(prefix);
    match resolve_env_scope(&kv, &pv, maybe_env) {
        ScopeResolved::NotHere => Ok(false),
        ScopeResolved::Missing => Err(ExpandError::MissingVariable(String::from_str(key))),
        ScopeResolved::Unknown => Err(ExpandError::UnknownVariable(String::from_str(key))),
        ScopeResolved::Value(v) => {
            result.append(v.as_str());
            Ok(true)
        },
    }
}

enum KeyResolvedExec {
    Missing,
    Unknown,
    Value(String),
    Passthrough,
}

fn resolve_key_exec(key: &Vec<char>, ctx: &ExpandContext) -> (r: KeyResolvedExec)
    ensures
        ({
            let sp = resolve_key(key@, *ctx);
            match r {
                KeyResolvedExec::Missing => sp is Missing,
                KeyResolvedExec::Unknown => sp is Unknown || sp is NotHere,
                KeyResolvedExec::Value(s) => sp matches KeyResolution::Value(v) && s@ == v,
                KeyResolvedExec::Passthrough => sp is Passthrough,
            }
        }),
{
    let p1 = str_chars("env.");
    let env_ref = ctx.env.as_ref();
    proof {
        assert(env_of_ref(env_ref) == ctx.env);
    }
    match resolve_env_scope(key, &p1, env_ref) {
        ScopeResolved::Missing => {
            return KeyResolvedExec::Missing;
        },
        ScopeResolved::Unknown => {
            return KeyResolvedExec::Unknown;
        },
        ScopeResolved::Value(s) => {
            return KeyResolvedExec::Value(s);
        },
        ScopeResolved::NotHere => {},
    }
    let p2 = str_chars("$env.");
    let local_ref = ctx.local_env.as_ref();
    proof {
        assert(env_of_ref(local_ref) == ctx.local_env);
    }
    match resolve_env_scope(key, &p2, local_ref) {
        ScopeResolved::Missing => {
            return KeyResolvedExec::Missing;
        },
        ScopeResolved::Unknown => {
            return KeyResolvedExec::Unknown;
        },
        ScopeResolved::Value(s) => {
            return KeyResolvedExec::Value(s);
        },
        ScopeResolved::NotHere => {},
    }
    let p3 = str_chars("!env.");
    let default_ref = ctx.default_env.as_ref();
    proof {
        assert(env_of_ref(default_ref) == ctx.default_env);
    }
    match resolve_env_scope(key, &p3, default_ref) {
        ScopeResolved::Missing => {
            return KeyResolvedExec::Missing;
        },
        ScopeResolved::Unknown => {
            return KeyResolvedExec::Unknown;
        },
        ScopeResolved::Value(s) => {
            return KeyResolvedExec::Value(s);
        },
        ScopeResolved::NotHere => {},
    }
    let path_prefix = str_chars("path.");
    if chars_has_prefix(key, &path_prefix) {
        proof {
            reveal_strlit("path.");
        }
        let stripped = subrange_chars(key, 5, key.len());
        proof {
            assert(stripped@ =~= key@.skip(5));
        }
        let current_name = str_chars("current");
        let root_name = str_chars("project_root");
        if chars_eq(&stripped, &current_name) {
            match &ctx.path {
                Some(p) => KeyResolvedExec::Value(p.clone()),
                None => KeyResolvedExec::Missing,
            }
        } else if chars_eq(&stripped, &root_name) {
            match &ctx.project_root {
                Some(p) => KeyResolvedExec::Value(p.clone()),
                None => KeyResolvedExec::Missing,
            }
        } else {
            KeyResolvedExec::Unknown
        }
    } else {
        let name_key = str_chars("NAME");
        let input_key = str_chars("INPUT");
        let output_key = str_chars("OUTPUT");
        if chars_eq(key, &name_key) || chars_eq(key, &input_key) || chars_eq(key, &output_key) {
            KeyResolvedExec::Passthrough
        } else {
            KeyResolvedExec::Unknown
        }
    }
}

fn static_expand_from(v: &Vec<char>, start: usize, ctx: &ExpandContext) -> (r: Result<
    Vec<char>,
    ExpandError,
>)
    requires
        start <= v@.len(),
    ensures
        ({
            let sp = static_expand(v@.skip(start as int), *ctx);
            match r {
                Ok(out) => sp matches Ok(o) && out@ == o,
                Err(ExpandError::MissingVariable(key)) => sp matches Err(
                    StaticExpandFailure::Missing(k),
                ) && key@ == k,
                Err(ExpandError::UnknownVariable(key)) => sp matches Err(
                    StaticExpandFailure::Unknown(k),
                ) && key@ == k,
            }
        }),
    decreases v@.len() - start,
{
    let ghost s = v@.skip(start as int);
    if start >= v.len() {
        assert(s.len() == 0);
        return Ok(Vec::new());
    }
    assert(s[0] == v@[start as int]);
    if v[start] == '$' && start + 1 < v.len() && v[start + 1] == '{' {
        assert(s[1] == v@[start as int + 1]);
        assert(s.len() >= 2 && s[0] == '$' && s[1] == '{');
        let k = find_close(v, start + 2);
        let raw = subrange_chars(v, start + 2, k);
        let key = trim_chars(&raw);
        let ghost tail = s.skip(2);
        let ghost off = close_off(tail);
        proof {
            assert(tail =~= v@.skip(start as int + 2));
            assert(off == k - (start + 2));
            assert(tail.take(off as int) =~= v@.subrange(start as int + 2, k as int));
        }
        let next: usize = if k < v.len() {
            k + 1
        } else {
            k
        };
        proof {
            if k < v.len() {
                assert(off < tail.len());
                assert(tail.skip(off as int + 1) =~= v@.skip(next as int));
            } else {
                assert(off == tail.len());
                assert(v@.skip(next as int) =~= Seq::<char>::empty());
            }
        }
        match resolve_key_exec(&key, ctx) {
            KeyResolvedExec::Value(val) => {
                match static_expand_from(v, next, ctx) {
                    Ok(rest) => {
                        let mut out = str_chars(val.as_str());
                        let mut tail_out = rest;
                        out.append(&mut tail_out);
                        Ok(out)
                    },
                    Err(e) => Err(e),
                }
            },
            KeyResolvedExec::Passthrough => {
                match static_expand_from(v, next, ctx) {
                    Ok(rest) => {
                        let mut out: Vec<char> = Vec::new();
                        out.push('$');
                        out.push('{');
                        let mut key_copy = subrange_chars(&key, 0, key.len());
                        out.append(&mut key_copy);
                        out.push('}');
                        let mut tail_out = rest;
                        out.append(&mut tail_out);
                        proof {
                            reveal_strlit("${");
                            reveal_strlit("}");
                            assert(key@.subrange(0, key@.len() as int) =~= key@);
                            assert(out@ =~= "${"@ + key@ + "}"@ + (static_expand(
                                v@.skip(next as int),
                                *ctx,
                            ))->Ok_0);
                        }
                        Ok(out)
                    },
                    Err(e) => Err(e),
                }
            },
            KeyResolvedExec::Missing => Err(
                ExpandError::MissingVariable(chars_to_string(&key)),
            ),
            KeyResolvedExec::Unknown => Err(
                ExpandError::UnknownVariable(chars_to_string(&key)),
            ),
        }
    } else {
        match static_expand_from(v, start + 1, ctx) {
            Ok(rest) => {
                let mut out: Vec<char> = Vec::new();
                out.push(v[start]);
                let mut tail_out = rest;
                out.append(&mut tail_out);
                proof {
                    assert(v@.skip(start as int + 1) =~= s.drop_first());
                    assert(out@ =~= seq![s[0]] + (static_expand(s.drop_first(), *ctx))->Ok_0);
                }
                Ok(out)
            },
            Err(e) => {
                proof {
                    assert(v@.skip(start as int + 1) =~= s.drop_first());
                }
                Err(e)
            },
        }
    }
}

/// Static template expansion against the context's scopes.
pub fn expand_string(input: &str, ctx: &ExpandContext) -> (r: Result<String, ExpandError>)
    ensures
        ({
            let sp = static_expand(input@, *ctx);
            match r {
                Ok(out) => sp matches Ok(o) && out@ == o,
                Err(ExpandError::MissingVariable(key)) => sp matches Err(
                    StaticExpandFailure::Missing(k),
                ) && key@ == k,
                Err(ExpandError::UnknownVariable(key)) => sp matches Err(
                    StaticExpandFailure::Unknown(k),
                ) && key@ == k,
            }
        }),
{
    let v = str_chars(input);
    proof {
        assert(v@.skip(0) =~= input@);
    }
    match static_expand_from(&v, 0, ctx) {
        Ok(out) => Ok(chars_to_string(&out)),
        Err(e) => Err(e),
    }
}

fn clone_env(e: &Environment) -> (r: Environment)
    ensures
        r.description@ == e.description@,
        r.toolchain@ == e.toolchain@,
        r.build_dir@ == e.build_dir@,
        r.vars@ == e.vars@,
{
    let mut vars: Vec<(String, String)> = Vec::new();
    let n = e.vars.len();
    let mut i: usize = 0;
    while i < n
        invariant
            i <= n,
            n == e.vars@.len(),
            vars@ == e.vars@.subrange(0, i as int),
        decreases n - i,
    {
        vars.push((e.vars[i].0.clone(), e.vars[i].1.clone()));
        assert(vars@ =~= e.vars@.subrange(0, i + 1));
        i += 1;
    }
    assert(vars@ =~= e.vars@);
    Environment {
        description: e.description.clone(),
        toolchain: e.toolchain.clone(),
        build_dir: e.build_dir.clone(),
        vars,
    }
}

impl ExpandContext {
    /// A context with no scope bound.
    pub fn new() -> (r: Self)
        ensures
            r.default_env is None,
            r.env is None,
            r.local_env is None,
            r.path is None,
            r.project_root is None,
    {
        ExpandContext {
            default_env: None,
            env: None,
            local_env: None,
            path: None,
            project_root: None,
        }
    }

    /// The same context with the `!env.` scope bound.
    pub fn default_env(self, env: &Environment) -> (r: Self)
        ensures
            r.default_env matches Some(e) && e.description@ == env.description@ && e.toolchain@
                == env.toolchain@ && e.build_dir@ == env.build_dir@ && e.vars@ == env.vars@,
            r.env == self.env,
            r.local_env == self.local_env,
            r.path == self.path,
            r.project_root == self.project_root,
    {
        ExpandContext { default_env: Some(clone_env(env)), ..self }
    }

    /// The same context with the `env.` scope bound.
    pub fn env(self, env: &Environment) -> (r: Self)
        ensures
            r.env matches Some(e) && e.description@ == env.description@ && e.toolchain@
                == env.toolchain@ && e.build_dir@ == env.build_dir@ && e.vars@ == env.vars@,
            r.default_env == self.default_env,
            r.local_env == self.local_env,
            r.path == self.path,
            r.project_root == self.project_root,
    {
        ExpandContext { env: Some(clone_env(env)), ..self }
    }

    /// The same context with `path.project_root` bound.
    pub fn project_root(self, root: &str) -> (r: Self)
        ensures
            r.project_root matches Some(p) && p@ == root@,
            r.default_env == self.default_env,
            r.env == self.env,
            r.local_env == self.local_env,
            r.path == self.path,
    {
        ExpandContext { project_root: Some(String::from_str(root)), ..self }
    }

    /// The same context with `path.current` bound.
    pub fn path(self, path: &str) -> (r: Self)
        ensures
            r.path matches Some(p) && p@ == path@,
            r.default_env == self.default_env,
            r.env == self.env,
            r.local_env == self.local_env,
            r.project_root == self.project_root,
    {
        ExpandContext { path: Some(String::from_str(path)), ..self }
    }

    /// A copy of the context with the `$env.` scope bound.
    pub fn with_local_env(&self, env: &Environment) -> (r: Self)
        ensures
            r.local_env matches Some(e) && e.description@ == env.description@ && e.toolchain@
                == env.toolchain@ && e.build_dir@ == env.build_dir@ && e.vars@ == env.vars@,
            same_env(r.default_env, self.default_env),
            same_env(r.env, self.env),
            r.path == self.path,
            r.project_root == self.project_root,
    {
        let default_env = match &self.default_env {
            Some(e) => Some(clone_env(e)),
            None => None,
        };
        let env_scope = match &self.env {
            Some(e) => Some(clone_env(e)),
            None => None,
        };
        let path = match &self.path {
            Some(p) => Some(p.clone()),
            None => None,
        };
        let project_root = match &self.project_root {
            Some(p) => Some(p.clone()),
            None => None,
        };
        ExpandContext {
            default_env,
            env: env_scope,
            local_env: Some(clone_env(env)),
            path,
            project_root,
        }
    }
}

} // verus!
