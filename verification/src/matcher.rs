//! Tool selection. Within a toolchain, the candidates for a step are the
//! tools whose `when.out` is the requested output kind; a combining tool must
//! also match the conceptual kind of the aggregated inputs, a per-file tool
//! the input's kind and extension. A second match for the same work is a
//! configuration error, so a fixed (extension, input kind, output kind)
//! triple selects at most one tool.

use vstd::prelude::*;
use vstd::string::*;
use crate::model::{BuildError, OutputKind, Tool, kind_eq};
use crate::expand::{ExpandError, flat_expand, expand_string_with_vars};
use crate::paths::{spec_file_stem, spec_extension, spec_parent, file_stem, extension, parent_dir};
use crate::text::{str_eq, join_with, str_chars, join_chars, push_deep};

verus! {

/// Whether a tool can combine the whole input list into this output.
pub open spec fn combine_candidate(t: Tool, out: OutputKind, input_kind: OutputKind) -> bool {
    t.combine_inputs && t.when.out.norm() == out.norm() && t.when.kind.norm() == input_kind.norm()
}

/// Whether a tool applies to one input file of this extension and kind.
pub open spec fn file_candidate(
    t: Tool,
    out: OutputKind,
    ext: Seq<char>,
    input_kind: OutputKind,
) -> bool {
    &&& !t.combine_inputs
    &&& t.when.out.norm() == out.norm()
    &&& t.when.kind.norm() == input_kind.norm()
    &&& (t.when.ext@.len() == 0 || exists|i: int|
        0 <= i < t.when.ext@.len() && (#[trigger] t.when.ext@[i])@ == ext)
}

fn ext_listed(exts: &Vec<String>, ext: &str) -> (r: bool)
    ensures
        r == exists|i: int| 0 <= i < exts@.len() && (#[trigger] exts@[i])@ == ext@,
{
    let n = exts.len();
    let mut i: usize = 0;
    while i < n
        invariant
            i <= n,
            n == exts@.len(),
            forall|j: int| 0 <= j < i ==> (#[trigger] exts@[j])@ != ext@,
        decreases n - i,
    {
        if str_eq(exts[i].as_str(), ext) {
            return true;
        }
        i += 1;
    }
    false
}

/// The one tool that can combine the inputs into this output, if any. Two
/// such tools are a configuration error, reported with the output path.
pub fn find_combine_tool(
    tools: &Vec<(String, Tool)>,
    out: &OutputKind,
    input_kind: &OutputKind,
    output_name: &str,
) -> (r: Result<Option<usize>, BuildError>)
    ensures
        match r {
            Ok(Some(i)) => 0 <= i < tools@.len() && combine_candidate(
                tools@[i as int].1,
                *out,
                *input_kind,
            ) && forall|j: int|
                0 <= j < tools@.len() && j != i ==> !combine_candidate(
                    #[trigger] tools@[j].1,
                    *out,
                    *input_kind,
                ),
            Ok(None) => forall|j: int|
                0 <= j < tools@.len() ==> !combine_candidate(
                    #[trigger] tools@[j].1,
                    *out,
                    *input_kind,
                ),
            Err(e) => (exists|i: int, j: int|
                0 <= i < j < tools@.len() && combine_candidate(
                    #[trigger] tools@[i].1,
                    *out,
                    *input_kind,
                ) && combine_candidate(#[trigger] tools@[j].1, *out, *input_kind)) && (e matches
                BuildError::MultipleTools(s) && s@ == output_name@),
        },
{
    let n = tools.len();
    let mut found: Option<usize> = None;
    let mut i: usize = 0;
    while i < n
        invariant
            i <= n,
            n == tools@.len(),
            match found {
                Some(f) => 0 <= f < i && combine_candidate(
                    tools@[f as int].1,
                    *out,
                    *input_kind,
                ) && forall|j: int|
                    0 <= j < i && j != f ==> !combine_candidate(
                        #[trigger] tools@[j].1,
                        *out,
                        *input_kind,
                    ),
                None => forall|j: int|
                    0 <= j < i ==> !combine_candidate(#[trigger] tools@[j].1, *out, *input_kind),
            },
        decreases n - i,
    {
        let t = &tools[i].1;
        let is_candidate = t.combine_inputs && kind_eq(&t.when.out, out) && kind_eq(
            &t.when.kind,
            input_kind,
        );
        if is_candidate {
            match found {
                Some(_) => {
                    return Err(BuildError::MultipleTools(String::from_str(output_name)));
                },
                None => {
                    found = Some(i);
                },
            }
        }
        i += 1;
    }
    Ok(found)
}

/// The one tool that applies to an input of this extension and kind, if any.
/// Two such tools are a configuration error, reported with the input path.
pub fn find_file_tool(
    tools: &Vec<(String, Tool)>,
    out: &OutputKind,
    ext: &str,
    input_kind: &OutputKind,
    input_name: &str,
) -> (r: Result<Option<usize>, BuildError>)
    ensures
        match r {
            Ok(Some(i)) => 0 <= i < tools@.len() && file_candidate(
                tools@[i as int].1,
                *out,
                ext@,
                *input_kind,
            ) && forall|j: int|
                0 <= j < tools@.len() && j != i ==> !file_candidate(
                    #[trigger] tools@[j].1,
                    *out,
                    ext@,
                    *input_kind,
                ),
            Ok(None) => forall|j: int|
                0 <= j < tools@.len() ==> !file_candidate(
                    #[trigger] tools@[j].1,
                    *out,
                    ext@,
                    *input_kind,
                ),
            Err(e) => (exists|i: int, j: int|
                0 <= i < j < tools@.len() && file_candidate(
                    #[trigger] tools@[i].1,
                    *out,
                    ext@,
                    *input_kind,
                ) && file_candidate(#[trigger] tools@[j].1, *out, ext@, *input_kind)) && (e matches
                BuildError::MultipleTools(s) && s@ == input_name@),
        },
{
    let n = tools.len();
    let mut found: Option<usize> = None;
    let mut i: usize = 0;
    while i < n
        invariant
            i <= n,
            n == tools@.len(),
            match found {
                Some(f) => 0 <= f < i && file_candidate(
                    tools@[f as int].1,
                    *out,
                    ext@,
                    *input_kind,
                ) && forall|j: int|
                    0 <= j < i && j != f ==> !file_candidate(
                        #[trigger] tools@[j].1,
                        *out,
                        ext@,
                        *input_kind,
                    ),
                None => forall|j: int|
                    0 <= j < i ==> !file_candidate(#[trigger] tools@[j].1, *out, ext@, *input_kind),
            },
        decreases n - i,
    {
        let t = &tools[i].1;
        let is_candidate = !t.combine_inputs && kind_eq(&t.when.out, out) && kind_eq(
            &t.when.kind,
            input_kind,
        ) && (t.when.ext.len() == 0 || ext_listed(&t.when.ext, ext));
        if is_candidate {
            match found {
                Some(_) => {
                    return Err(BuildError::MultipleTools(String::from_str(input_name)));
                },
                None => {
                    found = Some(i);
                },
            }
        }
        i += 1;
    }
    Ok(found)
}

/// Tool-match determinism: the applicability of a tool is a function of the
/// (extension, input kind, output kind) triple, so two positions that each
/// match alone are the same position. With the match functions' contracts
/// this pins the selected tool for a fixed triple.
pub proof fn lemma_file_match_deterministic(
    tools: Seq<(String, Tool)>,
    out: OutputKind,
    ext: Seq<char>,
    input_kind: OutputKind,
    i: int,
    j: int,
)
    requires
        0 <= i < tools.len(),
        file_candidate(tools[i].1, out, ext, input_kind),
        forall|k: int|
            0 <= k < tools.len() && k != i ==> !file_candidate(
                #[trigger] tools[k].1,
                out,
                ext,
                input_kind,
            ),
        0 <= j < tools.len(),
        file_candidate(tools[j].1, out, ext, input_kind),
        forall|k: int|
            0 <= k < tools.len() && k != j ==> !file_candidate(
                #[trigger] tools[k].1,
                out,
                ext,
                input_kind,
            ),
    ensures
        i == j,
{
}

/// The parent-directory variable: `.` when the parent is empty.
pub open spec fn path_var(s: Seq<char>) -> Seq<char> {
    if spec_parent(s).len() == 0 {
        "."@
    } else {
        spec_parent(s)
    }
}

fn path_var_exec(s: &str) -> (r: String)
    ensures
        r@ == path_var(s@),
{
    let p = parent_dir(s);
    if p.as_str().unicode_len() == 0 {
        String::from_str(".")
    } else {
        p
    }
}

/// The full statement of the per-invocation variable map for one input and
/// one output: `INPUT`, `NAME`, `EXT` (only when the input has an
/// extension), `PATH`, then `OUTPUT`, `ONAME`, `OEXT` (only when the output
/// has an extension), `OPATH`, and nothing else.
pub open spec fn vars_for_invocation(
    m: Seq<(String, String)>,
    input: Seq<char>,
    output: Seq<char>,
) -> bool {
    let has_ext = spec_extension(input) is Some;
    let has_oext = spec_extension(output) is Some;
    let p = if has_ext {
        3int
    } else {
        2int
    };
    let q = if has_oext {
        p + 4
    } else {
        p + 3
    };
    &&& m.len() == q + 1
    &&& m[0].0@ == "INPUT"@ && m[0].1@ == input
    &&& m[1].0@ == "NAME"@ && m[1].1@ == spec_file_stem(input)
    &&& (has_ext ==> m[2].0@ == "EXT"@ && m[2].1@ == spec_extension(input)->0)
    &&& m[p].0@ == "PATH"@ && m[p].1@ == path_var(input)
    &&& m[p + 1].0@ == "OUTPUT"@ && m[p + 1].1@ == output
    &&& m[p + 2].0@ == "ONAME"@ && m[p + 2].1@ == spec_file_stem(output)
    &&& (has_oext ==> m[p + 3].0@ == "OEXT"@ && m[p + 3].1@ == spec_extension(output)->0)
    &&& m[q].0@ == "OPATH"@ && m[q].1@ == path_var(output)
}

/// The variable map for one per-file invocation.
pub fn build_file_vars(input: &str, output: &str) -> (r: Vec<(String, String)>)
    ensures
        vars_for_invocation(r@, input@, output@),
{
    let mut m: Vec<(String, String)> = Vec::new();
    m.push((String::from_str("INPUT"), String::from_str(input)));
    m.push((String::from_str("NAME"), file_stem(input)));
    match extension(input) {
        Some(e) => {
            m.push((String::from_str("EXT"), e));
        },
        None => {},
    }
    m.push((String::from_str("PATH"), path_var_exec(input)));
    m.push((String::from_str("OUTPUT"), String::from_str(output)));
    m.push((String::from_str("ONAME"), file_stem(output)));
    match extension(output) {
        Some(e) => {
            m.push((String::from_str("OEXT"), e));
        },
        None => {},
    }
    m.push((String::from_str("OPATH"), path_var_exec(output)));
    m
}

/// The `INPUT` of a combined invocation: the input paths joined with single
/// spaces.
pub open spec fn joined_inputs(inputs: Seq<Seq<char>>) -> Seq<char> {
    join_with(inputs, " "@)
}

/// The input paths joined with single spaces.
pub fn join_inputs(inputs: &Vec<String>) -> (r: String)
    ensures
        r@ == joined_inputs(inputs.deep_view()),
{
    let mut pieces: Vec<Vec<char>> = Vec::new();
    let n = inputs.len();
    let mut i: usize = 0;
    proof {
        assert(pieces.deep_view() =~~= inputs.deep_view().take(0));
    }
    while i < n
        invariant
            i <= n,
            n == inputs@.len(),
            pieces.deep_view() == inputs.deep_view().take(i as int),
        decreases n - i,
    {
        let s_ref = &inputs[i];
        let p = str_chars(s_ref.as_str());
        proof {
            assert(*s_ref == inputs@[i as int]);
            assert(inputs.deep_view()[i as int] == inputs@[i as int].deep_view());
            assert(p@ =~= inputs.deep_view()[i as int]);
            assert(p.deep_view() =~= p@);
        }
        push_deep(&mut pieces, p);
        proof {
            assert(pieces.deep_view() =~= inputs.deep_view().take(i + 1));
        }
        i += 1;
    }
    proof {
        assert(inputs.deep_view().take(n as int) =~= inputs.deep_view());
    }
    let sep = str_chars(" ");
    let out = join_chars(&pieces, &sep);
    crate::text::chars_to_string(&out)
}

/// The variable map for one combined invocation over the whole input list.
pub fn build_combine_vars(inputs: &Vec<String>, output: &str) -> (r: Vec<(String, String)>)
    ensures
        ({
            let m = r@;
            let has_oext = spec_extension(output@) is Some;
            let q = if has_oext {
                4int
            } else {
                3int
            };
            &&& m.len() == q + 1
            &&& m[0].0@ == "INPUT"@ && m[0].1@ == joined_inputs(inputs.deep_view())
            &&& m[1].0@ == "OUTPUT"@ && m[1].1@ == output@
            &&& m[2].0@ == "ONAME"@ && m[2].1@ == spec_file_stem(output@)
            &&& (has_oext ==> m[3].0@ == "OEXT"@ && m[3].1@ == spec_extension(output@)->0)
            &&& m[q].0@ == "OPATH"@ && m[q].1@ == path_var(output@)
        }),
{
    let mut m: Vec<(String, String)> = Vec::new();
    m.push((String::from_str("INPUT"), join_inputs(inputs)));
    m.push((String::from_str("OUTPUT"), String::from_str(output)));
    m.push((String::from_str("ONAME"), file_stem(output)));
    match extension(output) {
        Some(e) => {
            m.push((String::from_str("OEXT"), e));
        },
        None => {},
    }
    m.push((String::from_str("OPATH"), path_var_exec(output)));
    m
}

/// A tool's command and message templates rendered against one variable map.
pub fn render_tool_invocation(tool: &Tool, vars: &Vec<(String, String)>) -> (r: Result<
    (String, String),
    ExpandError,
>)
    ensures
        match r {
            Ok(p) => (flat_expand(tool.command@, vars@) matches Ok(c) && p.0@ == c) && (
            flat_expand(tool.message@, vars@) matches Ok(msg) && p.1@ == msg),
            Err(_) => flat_expand(tool.command@, vars@) is Err || flat_expand(
                tool.message@,
                vars@,
            ) is Err,
        },
{
    let command = expand_string_with_vars(tool.command.as_str(), vars)?;
    let message = expand_string_with_vars(tool.message.as_str(), vars)?;
    Ok((command, message))
}

} // verus!
