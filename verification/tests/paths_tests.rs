use lbt::paths::{extension, file_name, file_stem, normalize_path, parent_dir, render_out_path};

#[test]
fn normalize_joins_a_relative_path_under_the_root() {
    assert_eq!(normalize_path("src/a.c", "/proj"), "/proj/src/a.c");
    assert_eq!(normalize_path("a.c", ""), "a.c");
}

#[test]
fn normalize_keeps_an_absolute_path() {
    assert_eq!(normalize_path("/usr/include", "/proj"), "/usr/include");
}

#[test]
fn normalize_turns_backslashes_into_slashes() {
    assert_eq!(normalize_path("src\\sub\\a.c", "/proj"), "/proj/src/sub/a.c");
}

#[test]
fn normalize_resolves_dot_and_dotdot_segments() {
    assert_eq!(normalize_path("./a/../b/c.c", "/p"), "/p/b/c.c");
    assert_eq!(normalize_path("a//b/./c", ""), "a/b/c");
}

#[test]
fn normalize_lets_dotdot_consume_the_root_marker() {
    assert_eq!(normalize_path("/a/../../b", ""), "b");
}

#[test]
fn file_name_pieces() {
    assert_eq!(file_name("src/sub/main.tar.gz"), "main.tar.gz");
    assert_eq!(file_stem("src/sub/main.tar.gz"), "main.tar");
    assert_eq!(extension("src/sub/main.tar.gz").unwrap(), "gz");
    assert_eq!(parent_dir("src/sub/main.tar.gz"), "src/sub");
}

#[test]
fn file_name_without_extension_or_parent() {
    assert_eq!(file_name("main"), "main");
    assert_eq!(file_stem("main"), "main");
    assert!(extension("main").is_none());
    assert_eq!(parent_dir("main"), "");
}

#[test]
fn leading_dot_does_not_start_an_extension() {
    assert_eq!(file_stem("src/.gitignore"), ".gitignore");
    assert!(extension("src/.gitignore").is_none());
}

#[test]
fn out_path_template_replaces_the_input_marker() {
    assert_eq!(render_out_path("{INPUT}", "src/a.c"), "src/a.c");
    assert_eq!(render_out_path("obj/{INPUT}.o", "a.c"), "obj/a.c.o");
    assert_eq!(render_out_path("fixed/name", "a.c"), "fixed/name");
}
