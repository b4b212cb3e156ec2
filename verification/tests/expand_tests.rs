use lbt::expand::{expand_string, expand_string_with_vars, replace_placeholders, ExpandContext,
    ExpandError};
use lbt::model::Environment;

fn env(toolchain: &str, vars: Vec<(&str, &str)>) -> Environment {
    Environment {
        description: "an environment".to_string(),
        toolchain: toolchain.to_string(),
        build_dir: "build".to_string(),
        vars: vars.into_iter().map(|(k, v)| (k.to_string(), v.to_string())).collect(),
    }
}

#[test]
fn flat_expansion_substitutes_every_key() {
    let vars = vec![
        ("INPUT".to_string(), "main.c".to_string()),
        ("OUTPUT".to_string(), "main.o".to_string()),
    ];
    let r = expand_string_with_vars("cc ${INPUT} -o ${OUTPUT}", &vars).unwrap();
    assert_eq!(r, "cc main.c -o main.o");
}

#[test]
fn flat_expansion_trims_keys() {
    let vars = vec![("INPUT".to_string(), "x".to_string())];
    let r = expand_string_with_vars("a ${ INPUT } b", &vars).unwrap();
    assert_eq!(r, "a x b");
}

#[test]
fn flat_expansion_fails_on_unknown_key() {
    let vars = vec![("INPUT".to_string(), "x".to_string())];
    let e = expand_string_with_vars("${FLAGS}", &vars).unwrap_err();
    match e {
        ExpandError::UnknownVariable(k) => assert_eq!(k, "FLAGS"),
        ExpandError::MissingVariable(_) => panic!("wrong error kind"),
    }
}

#[test]
fn flat_expansion_without_placeholders_is_identity() {
    let vars = Vec::new();
    let r = expand_string_with_vars("plain text $ not { a } placeholder", &vars).unwrap();
    assert_eq!(r, "plain text $ not { a } placeholder");
}

#[test]
fn unterminated_placeholder_reaches_end_of_text() {
    let vars = vec![("KEY".to_string(), "v".to_string())];
    let r = expand_string_with_vars("a ${KEY", &vars).unwrap();
    assert_eq!(r, "a v");
}

#[test]
fn replace_placeholders_matches_flat_expansion() {
    let vars = vec![("BUILD_DIR".to_string(), "build/debug".to_string())];
    let r = replace_placeholders("execute ${BUILD_DIR}/main", &vars).unwrap();
    assert_eq!(r, "execute build/debug/main");
}

#[test]
fn static_expansion_resolves_env_scope() {
    let e = env("gcc", vec![("opt", "-O2")]);
    let ctx = ExpandContext::new().env(&e);
    assert_eq!(expand_string("use ${env.opt}", &ctx).unwrap(), "use -O2");
    assert_eq!(expand_string("${env.toolchain}", &ctx).unwrap(), "gcc");
    assert_eq!(expand_string("${env.description}", &ctx).unwrap(), "an environment");
}

#[test]
fn static_expansion_scope_priority_and_local_env() {
    let outer = env("gcc", vec![("v", "outer")]);
    let local = env("clang", vec![("v", "local")]);
    let ctx = ExpandContext::new().env(&outer);
    let ctx = ctx.with_local_env(&local);
    assert_eq!(expand_string("${env.v} ${$env.v}", &ctx).unwrap(), "outer local");
    assert_eq!(expand_string("${$env.toolchain}", &ctx).unwrap(), "clang");
}

#[test]
fn static_expansion_default_env_scope() {
    let d = env("tcc", vec![("root", "/opt")]);
    let ctx = ExpandContext::new().default_env(&d);
    assert_eq!(expand_string("${!env.root}", &ctx).unwrap(), "/opt");
}

#[test]
fn static_expansion_path_scopes() {
    let ctx = ExpandContext::new().project_root("/proj").path("/proj/src");
    assert_eq!(expand_string("${path.current}", &ctx).unwrap(), "/proj/src");
    assert_eq!(expand_string("${path.project_root}", &ctx).unwrap(), "/proj");
}

#[test]
fn static_expansion_passes_reserved_names_through() {
    let ctx = ExpandContext::new();
    let r = expand_string("cc ${ INPUT } -o ${OUTPUT} as ${NAME}", &ctx).unwrap();
    assert_eq!(r, "cc ${INPUT} -o ${OUTPUT} as ${NAME}");
}

#[test]
fn static_expansion_unknown_variable_fails() {
    let e = env("gcc", vec![]);
    let ctx = ExpandContext::new().env(&e);
    let err = expand_string("${env.nope}", &ctx).unwrap_err();
    assert!(matches!(err, ExpandError::UnknownVariable(k) if k == "env.nope"));
}

#[test]
fn static_expansion_unbound_scope_fails_as_missing() {
    let ctx = ExpandContext::new();
    let err = expand_string("${env.opt}", &ctx).unwrap_err();
    assert!(matches!(err, ExpandError::MissingVariable(k) if k == "env.opt"));
    let err2 = expand_string("${path.current}", &ctx).unwrap_err();
    assert!(matches!(err2, ExpandError::MissingVariable(_)));
}

#[test]
fn push_var_from_env_appends_or_declines() {
    let e = env("gcc", vec![("opt", "-O2")]);
    let mut out = String::from("x");
    let took = lbt::expand::push_var_from_env("env.opt", "env.", Some(&e), &mut out).unwrap();
    assert!(took);
    assert_eq!(out, "x-O2");
    let other = lbt::expand::push_var_from_env("$env.opt", "env.", Some(&e), &mut out).unwrap();
    assert!(!other);
    assert_eq!(out, "x-O2");
}
