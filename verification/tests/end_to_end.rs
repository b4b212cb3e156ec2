use lbt::cache::{check_built, needs_run, write_built, CacheBuffer};
use lbt::engine::{concat_outputs, for_each_mode, BeginResolve, Memo};
use lbt::globfiles::find_files;
use lbt::matcher::{build_combine_vars, build_file_vars, find_combine_tool, find_file_tool,
    render_tool_invocation};
use lbt::model::{Filters, KnownOutputKind, OutputKind, Target, Tool, ToolWhen};
use lbt::paths::{extension, file_name, parent_dir, render_out_path};

struct World {
    files: Vec<(String, Vec<u8>)>,
    commands_run: Vec<String>,
}

impl World {
    fn read(&self, path: &str) -> Vec<u8> {
        self.files
            .iter()
            .rev()
            .find(|(p, _)| p == path)
            .map(|(_, c)| c.clone())
            .expect("missing file")
    }

    fn has_file(&self, path: &str) -> bool {
        self.files.iter().any(|(p, _)| p == path)
    }

    fn write(&mut self, path: &str, content: Vec<u8>) {
        self.files.push((path.to_string(), content));
    }

    fn listing(&self, dir: &str) -> Vec<String> {
        let mut names: Vec<String> = self
            .files
            .iter()
            .filter(|(p, _)| parent_dir(p) == dir)
            .map(|(p, _)| file_name(p))
            .collect();
        names.sort();
        names.dedup();
        names
    }
}

fn cc_tool() -> Tool {
    Tool {
        kind: "compiler".to_string(),
        when: ToolWhen {
            ext: vec!["c".to_string()],
            kind: OutputKind::Known(KnownOutputKind::Source),
            out: OutputKind::Known(KnownOutputKind::Object),
        },
        dep_path: None,
        dep_format: None,
        flags: None,
        combine_inputs: false,
        command: "cc ${INPUT} -o ${OUTPUT}".to_string(),
        message: String::new(),
    }
}

fn ld_tool() -> Tool {
    Tool {
        kind: "linker".to_string(),
        when: ToolWhen {
            ext: Vec::new(),
            kind: OutputKind::Known(KnownOutputKind::Object),
            out: OutputKind::Known(KnownOutputKind::Executable),
        },
        dep_path: None,
        dep_format: None,
        flags: None,
        combine_inputs: true,
        command: "ld ${INPUT} -o ${OUTPUT}".to_string(),
        message: String::new(),
    }
}

fn object_target() -> Target {
    Target {
        description: None,
        message: None,
        depends: Vec::new(),
        before: Vec::new(),
        out_path: "{INPUT}.o".to_string(),
        for_each: None,
        out: OutputKind::Known(KnownOutputKind::Object),
        path: "src".to_string(),
        files: Some(Filters { patterns: vec!["*.c".to_string()], exclude: Vec::new() }),
        run: None,
    }
}

fn exe_target() -> Target {
    Target {
        description: None,
        message: None,
        depends: vec!["objects".to_string()],
        before: Vec::new(),
        out_path: "app".to_string(),
        for_each: None,
        out: OutputKind::Known(KnownOutputKind::Executable),
        path: ".".to_string(),
        files: None,
        run: None,
    }
}

fn targets() -> Vec<(String, Target)> {
    vec![("objects".to_string(), object_target()), ("link".to_string(), exe_target())]
}

fn tools() -> Vec<(String, Tool)> {
    vec![("CC".to_string(), cc_tool()), ("LD".to_string(), ld_tool())]
}

/// One resolution of a target: dependencies first, then glob resolution,
/// then one tool invocation per input or one over the whole list, with the
/// fingerprint cache deciding what is skipped. Returns the outputs and
/// whether anything in the subtree was rebuilt.
fn resolve(
    name: &str,
    world: &mut World,
    memo: &mut Memo,
    cache: &mut CacheBuffer,
    build_dir: &str,
) -> (Vec<String>, bool) {
    match memo.begin_target(name) {
        BeginResolve::Cached(outs) => return (outs, false),
        BeginResolve::Cycle => panic!("dependency cycle at {}", name),
        BeginResolve::Fresh => {},
    }
    let all = targets();
    let target = all
        .iter()
        .find(|(n, _)| n == name)
        .map(|(_, t)| t)
        .expect("unknown target");
    let tool_table = tools();

    let mut dep_outputs: Vec<Vec<String>> = Vec::new();
    let mut upstream_rebuilt = false;
    for dep in &target.depends {
        let (outs, rebuilt) = resolve(dep, world, memo, cache, build_dir);
        upstream_rebuilt = upstream_rebuilt || rebuilt;
        dep_outputs.push(outs);
    }
    let mut any_rebuilt = upstream_rebuilt;
    let mut inputs = concat_outputs(&dep_outputs);

    if target.files.is_some() {
        let names = world.listing(&target.path);
        let picked = find_files(&names, target.files.as_ref()).unwrap();
        for n in picked {
            inputs.push(format!("{}/{}", target.path, n));
        }
    }

    let mut outputs = Vec::new();
    if for_each_mode(target) {
        for input in &inputs {
            let ext = extension(input).unwrap_or_default();
            let idx = find_file_tool(
                &tool_table,
                &target.out,
                &ext,
                &OutputKind::Known(KnownOutputKind::Source),
                input,
            )
            .unwrap()
            .expect("no tool for input");
            let output = format!("{}/{}", build_dir, render_out_path(&target.out_path, input));
            let vars = build_file_vars(input, &output);
            let (command, _msg) = render_tool_invocation(&tool_table[idx].1, &vars).unwrap();
            let contents = vec![world.read(input)];
            let hit = check_built(&contents, &output, cache);
            if needs_run(hit, false, upstream_rebuilt, world.has_file(&output)) {
                let mut object = b"obj:".to_vec();
                object.extend(world.read(input));
                world.write(&output, object);
                world.commands_run.push(command);
                write_built(&contents, &output, cache);
                any_rebuilt = true;
            }
            outputs.push(output);
        }
    } else if !inputs.is_empty() {
        let output = format!("{}/{}", build_dir, render_out_path(&target.out_path, &inputs[0]));
        let idx = find_combine_tool(
            &tool_table,
            &target.out,
            &OutputKind::Known(KnownOutputKind::Object),
            &output,
        )
        .unwrap()
        .expect("no combining tool");
        let vars = build_combine_vars(&inputs, &output);
        let (command, _msg) = render_tool_invocation(&tool_table[idx].1, &vars).unwrap();
        let contents: Vec<Vec<u8>> = inputs.iter().map(|p| world.read(p)).collect();
        let hit = check_built(&contents, &output, cache);
        if needs_run(hit, false, upstream_rebuilt, world.has_file(&output)) {
            world.write(&output, b"exe".to_vec());
            world.commands_run.push(command);
            write_built(&contents, &output, cache);
            any_rebuilt = true;
        }
        outputs.push(output);
    }

    memo.finish_target(name, outputs.clone());
    (outputs, any_rebuilt)
}

fn run_build(world: &mut World, cache: &mut CacheBuffer) -> usize {
    let before = world.commands_run.len();
    let mut memo = Memo::new();
    resolve("link", world, &mut memo, cache, "build");
    world.commands_run.len() - before
}

#[test]
fn two_sources_build_two_objects_and_one_executable() {
    let mut world = World { files: Vec::new(), commands_run: Vec::new() };
    world.write("src/a.c", b"int a;".to_vec());
    world.write("src/b.c", b"int b;".to_vec());
    let mut cache = CacheBuffer::new();

    let ran = run_build(&mut world, &mut cache);
    assert_eq!(ran, 3);
    assert!(world.has_file("build/src/a.c.o"));
    assert!(world.has_file("build/src/b.c.o"));
    assert!(world.has_file("build/app"));
    assert_eq!(world.commands_run[0], "cc src/a.c -o build/src/a.c.o");
    assert_eq!(world.commands_run[1], "cc src/b.c -o build/src/b.c.o");
    assert_eq!(
        world.commands_run[2],
        "ld build/src/a.c.o build/src/b.c.o -o build/app"
    );
}

#[test]
fn a_second_unchanged_run_invokes_no_tool() {
    let mut world = World { files: Vec::new(), commands_run: Vec::new() };
    world.write("src/a.c", b"int a;".to_vec());
    world.write("src/b.c", b"int b;".to_vec());
    let mut cache = CacheBuffer::new();

    assert_eq!(run_build(&mut world, &mut cache), 3);
    assert_eq!(run_build(&mut world, &mut cache), 0);
}

#[test]
fn touching_one_source_rebuilds_one_object_and_the_executable() {
    let mut world = World { files: Vec::new(), commands_run: Vec::new() };
    world.write("src/a.c", b"int a;".to_vec());
    world.write("src/b.c", b"int b;".to_vec());
    let mut cache = CacheBuffer::new();

    assert_eq!(run_build(&mut world, &mut cache), 3);
    world.write("src/a.c", b"int A;".to_vec());
    let ran = run_build(&mut world, &mut cache);
    assert_eq!(ran, 2);
    let tail: Vec<&String> = world.commands_run.iter().rev().take(2).collect();
    assert_eq!(tail[1], "cc src/a.c -o build/src/a.c.o");
    assert_eq!(
        tail[0],
        "ld build/src/a.c.o build/src/b.c.o -o build/app"
    );
}

#[test]
fn a_discovered_dependency_widens_the_fingerprint() {
    // A dependency listing names a header; once it is part of the input set,
    // changing the header alone forces the step to run again.
    let mut world = World { files: Vec::new(), commands_run: Vec::new() };
    world.write("src/a.c", b"#include \"a.h\"".to_vec());
    world.write("src/a.h", b"int h;".to_vec());
    let mut cache = CacheBuffer::new();

    let listing = vec!["build/a.o: src/a.c \\".to_string(), "src/a.h".to_string()];
    let format = lbt::model::Format {
        split: None,
        start: Some(lbt::model::FormatRule { ignore_lines: 1, trim: None }),
        end: Some(lbt::model::FormatRule {
            ignore_lines: 0,
            trim: Some(lbt::model::Trim { condition: "\\".to_string(), remove: 1 }),
        }),
    };
    let deps = lbt::depfile::parse_deps(&listing, &format);
    let flags: Vec<bool> = deps.iter().map(|d| world.has_file(d)).collect();
    let fingerprint_inputs = lbt::engine::augment_inputs(
        &vec!["src/a.c".to_string()],
        &deps,
        &flags,
    );
    assert_eq!(fingerprint_inputs, vec!["src/a.c".to_string(), "src/a.h".to_string()]);

    let contents: Vec<Vec<u8>> = fingerprint_inputs.iter().map(|p| world.read(p)).collect();
    write_built(&contents, "build/a.o", &mut cache);
    assert!(check_built(&contents, "build/a.o", &cache));

    world.write("src/a.h", b"int changed;".to_vec());
    let touched: Vec<Vec<u8>> = fingerprint_inputs.iter().map(|p| world.read(p)).collect();
    assert!(!check_built(&touched, "build/a.o", &cache));
}
