use lbt::matcher::{build_combine_vars, build_file_vars, find_combine_tool, find_file_tool,
    render_tool_invocation};
use lbt::model::{BuildError, KnownOutputKind, OutputKind, Tool, ToolWhen};

fn tool(combine: bool, exts: &[&str], kind: OutputKind, out: OutputKind, command: &str) -> Tool {
    Tool {
        kind: if combine { "linker".to_string() } else { "compiler".to_string() },
        when: ToolWhen {
            ext: exts.iter().map(|e| e.to_string()).collect(),
            kind,
            out,
        },
        dep_path: None,
        dep_format: None,
        flags: None,
        combine_inputs: combine,
        command: command.to_string(),
        message: String::new(),
    }
}

fn object() -> OutputKind {
    OutputKind::Known(KnownOutputKind::Object)
}

fn source() -> OutputKind {
    OutputKind::Known(KnownOutputKind::Source)
}

fn executable() -> OutputKind {
    OutputKind::Known(KnownOutputKind::Executable)
}

fn sample_tools() -> Vec<(String, Tool)> {
    vec![
        ("CC".to_string(), tool(false, &["c"], source(), object(), "cc ${INPUT} -o ${OUTPUT}")),
        (
            "CXX".to_string(),
            tool(false, &["cpp"], source(), object(), "c++ ${INPUT} -o ${OUTPUT}"),
        ),
        ("LD".to_string(), tool(true, &[], object(), executable(), "ld ${INPUT} -o ${OUTPUT}")),
    ]
}

#[test]
fn per_file_match_picks_the_tool_for_the_extension() {
    let tools = sample_tools();
    let i = find_file_tool(&tools, &object(), "c", &source(), "a.c").unwrap().unwrap();
    assert_eq!(tools[i].0, "CC");
    let j = find_file_tool(&tools, &object(), "cpp", &source(), "b.cpp").unwrap().unwrap();
    assert_eq!(tools[j].0, "CXX");
}

#[test]
fn per_file_match_is_deterministic_for_a_fixed_triple() {
    let tools = sample_tools();
    let first = find_file_tool(&tools, &object(), "c", &source(), "a.c").unwrap();
    let second = find_file_tool(&tools, &object(), "c", &source(), "z.c").unwrap();
    assert_eq!(first, second);
}

#[test]
fn per_file_match_reports_no_tool_for_an_unknown_extension() {
    let tools = sample_tools();
    let r = find_file_tool(&tools, &object(), "rs", &source(), "a.rs").unwrap();
    assert!(r.is_none());
}

#[test]
fn two_tools_for_one_triple_are_rejected() {
    let mut tools = sample_tools();
    tools.push((
        "CC2".to_string(),
        tool(false, &["c"], source(), object(), "othercc ${INPUT} -o ${OUTPUT}"),
    ));
    let err = find_file_tool(&tools, &object(), "c", &source(), "a.c").unwrap_err();
    assert!(matches!(err, BuildError::MultipleTools(s) if s == "a.c"));
}

#[test]
fn combine_match_picks_the_linker() {
    let tools = sample_tools();
    let i = find_combine_tool(&tools, &executable(), &object(), "app").unwrap().unwrap();
    assert_eq!(tools[i].0, "LD");
}

#[test]
fn two_combining_tools_for_one_output_kind_are_rejected() {
    let mut tools = sample_tools();
    tools.push((
        "LD2".to_string(),
        tool(true, &[], object(), executable(), "otherld ${INPUT} -o ${OUTPUT}"),
    ));
    let err = find_combine_tool(&tools, &executable(), &object(), "app").unwrap_err();
    assert!(matches!(err, BuildError::MultipleTools(s) if s == "app"));
}

#[test]
fn custom_kind_matches_its_known_spelling() {
    let tools = vec![(
        "AR".to_string(),
        tool(true, &[], object(), OutputKind::Custom("static-library".to_string()), "ar"),
    )];
    let i = find_combine_tool(
        &tools,
        &OutputKind::Known(KnownOutputKind::StaticLibrary),
        &object(),
        "lib.a",
    )
    .unwrap();
    assert!(i.is_some());
}

#[test]
fn file_vars_carry_the_path_pieces() {
    let vars = build_file_vars("src/main.c", "build/src/main.o");
    let get = |k: &str| -> Option<String> {
        vars.iter().find(|(key, _)| key == k).map(|(_, v)| v.clone())
    };
    assert_eq!(get("INPUT").unwrap(), "src/main.c");
    assert_eq!(get("NAME").unwrap(), "main");
    assert_eq!(get("EXT").unwrap(), "c");
    assert_eq!(get("PATH").unwrap(), "src");
    assert_eq!(get("OUTPUT").unwrap(), "build/src/main.o");
    assert_eq!(get("ONAME").unwrap(), "main");
    assert_eq!(get("OEXT").unwrap(), "o");
    assert_eq!(get("OPATH").unwrap(), "build/src");
}

#[test]
fn file_vars_use_dot_for_an_empty_parent_and_omit_a_missing_extension() {
    let vars = build_file_vars("main", "main.o");
    let get = |k: &str| -> Option<String> {
        vars.iter().find(|(key, _)| key == k).map(|(_, v)| v.clone())
    };
    assert_eq!(get("PATH").unwrap(), ".");
    assert!(get("EXT").is_none());
    assert_eq!(get("NAME").unwrap(), "main");
}

#[test]
fn combine_vars_join_the_inputs_with_spaces() {
    let inputs = vec!["a.o".to_string(), "b.o".to_string()];
    let vars = build_combine_vars(&inputs, "build/app");
    let get = |k: &str| -> Option<String> {
        vars.iter().find(|(key, _)| key == k).map(|(_, v)| v.clone())
    };
    assert_eq!(get("INPUT").unwrap(), "a.o b.o");
    assert_eq!(get("OUTPUT").unwrap(), "build/app");
    assert_eq!(get("OPATH").unwrap(), "build");
}

#[test]
fn rendered_invocation_fills_the_command_template() {
    let t = tool(false, &["c"], source(), object(), "cc ${INPUT} -o ${OUTPUT}");
    let vars = build_file_vars("src/a.c", "build/a.o");
    let (command, message) = render_tool_invocation(&t, &vars).unwrap();
    assert_eq!(command, "cc src/a.c -o build/a.o");
    assert_eq!(message, "");
}

#[test]
fn rendered_invocation_fails_on_an_unknown_template_key() {
    let t = tool(false, &["c"], source(), object(), "cc ${FLAGS} ${INPUT}");
    let vars = build_file_vars("a.c", "a.o");
    assert!(render_tool_invocation(&t, &vars).is_err());
}
