use lbt::engine::{augment_inputs, concat_outputs, for_each_mode, plan_run, BeginResolve, Memo,
    RunAction};
use lbt::model::{BuildError, Filters, KnownOutputKind, OutputKind, StringOrVec, Target,
    default_build_dir, default_out_path, default_target_out, default_target_path};

fn target(out: OutputKind, for_each: Option<bool>) -> Target {
    Target {
        description: None,
        message: None,
        depends: Vec::new(),
        before: Vec::new(),
        out_path: default_out_path(),
        for_each,
        out,
        path: default_target_path(),
        files: None,
        run: None,
    }
}

#[test]
fn for_each_defaults_follow_the_output_kind() {
    assert!(for_each_mode(&target(OutputKind::Known(KnownOutputKind::Object), None)));
    assert!(for_each_mode(&target(OutputKind::Known(KnownOutputKind::Source), None)));
    assert!(for_each_mode(&target(OutputKind::Custom("weird".to_string()), None)));
    assert!(!for_each_mode(&target(OutputKind::Known(KnownOutputKind::Executable), None)));
    assert!(!for_each_mode(&target(OutputKind::Known(KnownOutputKind::StaticLibrary), None)));
    assert!(!for_each_mode(&target(
        OutputKind::Custom("executable".to_string()),
        None
    )));
}

#[test]
fn explicit_for_each_overrides_the_default() {
    assert!(for_each_mode(&target(OutputKind::Known(KnownOutputKind::Executable), Some(true))));
    assert!(!for_each_mode(&target(OutputKind::Known(KnownOutputKind::Object), Some(false))));
}

#[test]
fn memo_reports_fresh_then_cached_and_detects_cycles() {
    let mut memo = Memo::new();
    assert!(matches!(memo.begin_target("a"), BeginResolve::Fresh));
    assert!(matches!(memo.begin_target("a"), BeginResolve::Cycle));
    memo.finish_target("a", vec!["out/a.o".to_string()]);
    match memo.begin_target("a") {
        BeginResolve::Cached(outs) => assert_eq!(outs, vec!["out/a.o".to_string()]),
        _ => panic!("expected cached outputs"),
    }
    assert!(matches!(memo.begin_target("b"), BeginResolve::Fresh));
}

#[test]
fn dependency_outputs_concatenate_in_declaration_order() {
    let lists = vec![
        vec!["a.o".to_string(), "b.o".to_string()],
        Vec::new(),
        vec!["c.o".to_string()],
    ];
    assert_eq!(
        concat_outputs(&lists),
        vec!["a.o".to_string(), "b.o".to_string(), "c.o".to_string()]
    );
}

#[test]
fn augmentation_keeps_only_existing_dependency_files() {
    let direct = vec!["a.c".to_string()];
    let deps = vec!["a.h".to_string(), "gone.h".to_string(), "b.h".to_string()];
    let flags = vec![true, false, true];
    assert_eq!(
        augment_inputs(&direct, &deps, &flags),
        vec!["a.c".to_string(), "a.h".to_string(), "b.h".to_string()]
    );
}

#[test]
fn run_directive_execute_takes_program_and_args() {
    match plan_run("execute build/main --fast").unwrap().unwrap() {
        RunAction::Execute { program, args } => {
            assert_eq!(program, "build/main");
            assert_eq!(args, vec!["--fast".to_string()]);
        },
        _ => panic!("expected an execute action"),
    }
}

#[test]
fn run_directive_quoting_follows_shell_rules() {
    match plan_run("copy 'a dir/x y' dest").unwrap().unwrap() {
        RunAction::Copy { src, dst } => {
            assert_eq!(src, "a dir/x y");
            assert_eq!(dst, "dest");
        },
        _ => panic!("expected a copy action"),
    }
}

#[test]
fn run_directive_delete_and_move() {
    assert!(matches!(
        plan_run("delete build").unwrap().unwrap(),
        RunAction::Delete { path } if path == "build"
    ));
    assert!(matches!(
        plan_run("move a b").unwrap().unwrap(),
        RunAction::Move { src, dst } if src == "a" && dst == "b"
    ));
}

#[test]
fn run_directive_unknown_verb_fails() {
    let err = plan_run("launch rocket").unwrap_err();
    assert!(matches!(err, BuildError::RunDirectiveInvalid(v) if v == "launch"));
}

#[test]
fn run_directive_missing_arguments_fail() {
    assert!(plan_run("execute").is_err());
    assert!(plan_run("delete").is_err());
    assert!(plan_run("copy onlyone").is_err());
    assert!(plan_run("move onlyone").is_err());
}

#[test]
fn run_directive_empty_or_unsplittable_asks_for_nothing() {
    assert!(plan_run("").unwrap().is_none());
    assert!(plan_run("execute 'unclosed").unwrap().is_none());
}

#[test]
fn one_or_many_file_patterns_become_a_list() {
    let one = StringOrVec::One("*.c".to_string());
    assert_eq!(one.into_vec(), vec!["*.c".to_string()]);
    let many = StringOrVec::Many(vec!["*.c".to_string(), "*.cpp".to_string()]);
    assert_eq!(many.into_vec(), vec!["*.c".to_string(), "*.cpp".to_string()]);
}

#[test]
fn defaults_match_the_documented_values() {
    assert_eq!(default_build_dir(), "build");
    assert_eq!(default_target_path(), ".");
    assert_eq!(default_out_path(), "{INPUT}");
    let k = default_target_out();
    assert_eq!(lbt::model::kind_str(&k), "");
    let filters = Filters { patterns: Vec::new(), exclude: Vec::new() };
    assert!(filters.patterns.is_empty() && filters.exclude.is_empty());
}
