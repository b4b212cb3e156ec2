//! The configuration model: environments, targets, tools, toolchains and
//! dependency-listing formats. The model is built once by the caller (from
//! whatever on-disk format it uses) and is read-only afterwards.

use vstd::prelude::*;
use vstd::string::*;
use crate::table::assoc_get;

verus! {

/// The closed part of the output-kind set.
#[derive(Clone, Debug)]
pub enum KnownOutputKind {
    Executable,
    Object,
    StaticLibrary,
    Source,
}

/// An output kind: one of the known kinds, or a user-defined one. Kinds are
/// compared through their normalized string form, so `Custom("object")` and
/// `Known(Object)` name the same kind.
#[derive(Clone, Debug)]
pub enum OutputKind {
    Known(KnownOutputKind),
    Custom(String),
}

impl OutputKind {
    /// The normalized string form by which kinds are compared.
    pub open spec fn norm(self) -> Seq<char> {
        match self {
            OutputKind::Known(KnownOutputKind::Executable) => "executable"@,
            OutputKind::Known(KnownOutputKind::Object) => "object"@,
            OutputKind::Known(KnownOutputKind::StaticLibrary) => "static-library"@,
            OutputKind::Known(KnownOutputKind::Source) => "source"@,
            OutputKind::Custom(s) => s@,
        }
    }
}

/// The normalized string form of a kind.
pub fn kind_str(k: &OutputKind) -> (r: String)
    ensures
        r@ == k.norm(),
{
    match k {
        OutputKind::Known(KnownOutputKind::Executable) => String::from_str("executable"),
        OutputKind::Known(KnownOutputKind::Object) => String::from_str("object"),
        OutputKind::Known(KnownOutputKind::StaticLibrary) => String::from_str("static-library"),
        OutputKind::Known(KnownOutputKind::Source) => String::from_str("source"),
        OutputKind::Custom(s) => s.clone(),
    }
}

/// Kind equality: equality of the normalized forms.
pub fn kind_eq(a: &OutputKind, b: &OutputKind) -> (r: bool)
    ensures
        r == (a.norm() == b.norm()),
{
    let sa = kind_str(a);
    let sb = kind_str(b);
    sa == sb
}

/// A file spec that is either a single pattern or a list of patterns.
#[derive(Clone, Debug)]
pub enum StringOrVec {
    One(String),
    Many(Vec<String>),
}

impl StringOrVec {
    /// The patterns as a list.
    pub fn into_vec(&self) -> (r: Vec<String>)
        ensures
            match self {
                StringOrVec::One(s) => r@ =~= seq![*s],
                StringOrVec::Many(v) => r@ == v@,
            },
    {
        match self {
            StringOrVec::One(s) => {
                let mut v: Vec<String> = Vec::new();
                v.push(s.clone());
                v
            },
            StringOrVec::Many(v) => v.clone(),
        }
    }
}

/// Include and exclude glob patterns for a target's file set.
#[derive(Clone, Debug)]
pub struct Filters {
    pub patterns: Vec<String>,
    pub exclude: Vec<String>,
}

/// A named environment: a toolchain binding, a build directory, and variables.
#[derive(Clone, Debug)]
pub struct Environment {
    pub description: String,
    pub toolchain: String,
    pub build_dir: String,
    pub vars: Vec<(String, String)>,
}

/// A trim rule of a dependency-listing format: when a line starts (or ends)
/// with `condition`, `remove` characters are taken off that end.
#[derive(Clone, Debug)]
pub struct Trim {
    pub condition: String,
    pub remove: u32,
}

/// One end of a dependency-listing format: lines to ignore and an optional
/// trim rule.
#[derive(Clone, Debug)]
pub struct FormatRule {
    pub ignore_lines: u32,
    pub trim: Option<Trim>,
}

/// How a compiler-written dependency listing is stripped down to path tokens.
#[derive(Clone, Debug)]
pub struct Format {
    pub split: Option<String>,
    pub start: Option<FormatRule>,
    pub end: Option<FormatRule>,
}

/// When a tool applies: an extension allow-list (empty: no restriction), the
/// required input kind, and the produced output kind.
#[derive(Clone, Debug)]
pub struct ToolWhen {
    pub ext: Vec<String>,
    pub kind: OutputKind,
    pub out: OutputKind,
}

/// A tool rule: an applicability condition, optional dependency-listing
/// discovery, and command and message templates.
#[derive(Clone, Debug)]
pub struct Tool {
    pub kind: String,
    pub when: ToolWhen,
    pub dep_path: Option<String>,
    pub dep_format: Option<String>,
    pub flags: Option<String>,
    pub combine_inputs: bool,
    pub command: String,
    pub message: String,
}

impl Tool {
    /// A tool that combines its inputs can neither filter by extension nor
    /// use a per-input dependency listing.
    pub open spec fn wf(self) -> bool {
        self.combine_inputs ==> self.when.ext@.len() == 0 && self.dep_path is None
    }
}

/// Whether a tool satisfies the combine-mode invariant.
pub fn tool_check(t: &Tool) -> (r: bool)
    ensures
        r == t.wf(),
{
    !t.combine_inputs || (t.when.ext.len() == 0 && t.dep_path.is_none())
}

/// A platform-independent or per-mode flag-set selection.
#[derive(Clone, Debug)]
pub struct FlagsSpecific {
    pub always: Vec<String>,
    pub modes: Vec<(String, Vec<String>)>,
}

/// Per-platform flag-set selections.
#[derive(Clone, Debug)]
pub struct FlagsPlatform {
    pub windows: Option<FlagsSpecific>,
    pub linux: Option<FlagsSpecific>,
    pub macos: Option<FlagsSpecific>,
}

/// A named flag group: global selections plus optional per-platform ones.
#[derive(Clone, Debug)]
pub struct Flags {
    pub global: FlagsSpecific,
    pub platforms: Option<FlagsPlatform>,
}

/// A named set of tool rules, flag groups and flag sets.
#[derive(Clone, Debug)]
pub struct Toolchain {
    pub description: String,
    pub tools: Vec<(String, Tool)>,
    pub flags: Vec<(String, Flags)>,
    pub flagsets: Vec<(String, Vec<String>)>,
}

/// A named group of files found under a target's path, with the toolchain
/// that builds them.
#[derive(Clone, Debug)]
pub struct Files {
    pub file_paths: Vec<String>,
    pub toolchain: String,
}

/// A named output of a target: its path template and its kind.
#[derive(Clone, Debug)]
pub struct Output {
    pub path: String,
    pub kind: OutputKind,
}

/// A build target: dependencies, ordering-only predecessors, its file set,
/// its output kind and path template, and an optional run directive.
#[derive(Clone, Debug)]
pub struct Target {
    pub description: Option<String>,
    pub message: Option<String>,
    pub depends: Vec<String>,
    pub before: Vec<String>,
    pub out_path: String,
    pub for_each: Option<bool>,
    pub out: OutputKind,
    pub path: String,
    pub files: Option<Filters>,
    pub run: Option<String>,
}

/// The project section of the build description.
#[derive(Clone, Debug)]
pub struct Project {
    pub name: String,
    pub version: Option<String>,
    pub description: Option<String>,
}

/// The tools section: the default toolchain and where the toolchain and
/// format tables come from.
#[derive(Clone, Debug)]
pub struct Tools {
    pub default_toolchain: String,
    pub default_mode: Option<String>,
    pub toolchains: Vec<String>,
    pub formats: Vec<String>,
}

/// The build section: the build directory and the default target.
#[derive(Clone, Debug)]
pub struct Build {
    pub dir: String,
    pub default_target: Option<String>,
}

/// The whole build description, already loaded and expanded.
#[derive(Clone, Debug)]
pub struct Config {
    pub project: Project,
    pub tools: Tools,
    pub build: Build,
    pub targets: Vec<(String, Target)>,
}

/// The build directory used when the description names none.
pub fn default_build_dir() -> (r: String)
    ensures
        r@ == "build"@,
{
    String::from_str("build")
}

/// The target path used when the description names none.
pub fn default_target_path() -> (r: String)
    ensures
        r@ == "."@,
{
    String::from_str(".")
}

/// The output-path template used when the description names none.
pub fn default_out_path() -> (r: String)
    ensures
        r@ == "{INPUT}"@,
{
    String::from_str("{INPUT}")
}

/// The output kind used when the description names none: a custom kind with
/// an empty name, which matches no tool rule.
pub fn default_target_out() -> (r: OutputKind)
    ensures
        r.norm() == Seq::<char>::empty(),
{
    OutputKind::Custom(String::new())
}

/// Errors of resolution: missing tables, missing or ambiguous tools, invalid
/// patterns, and dependency cycles.
#[derive(Clone, Debug)]
pub enum BuildError {
    ToolchainNotFound(String),
    FormatNotFound(String),
    FlagsNotFound(String),
    PatternInvalid(String),
    MultipleTools(String),
    NoToolForInput(String),
    RunDirectiveInvalid(String),
    TargetCycle(String),
}

/// The toolchain of that name, or an error naming it.
pub fn get_toolchain<'a>(name: &str, toolchains: &'a Vec<(String, Toolchain)>) -> (r: Result<
    &'a Toolchain,
    BuildError,
>)
    ensures
        match r {
            Ok(t) => assoc_get(toolchains@, name@) == Some(*t),
            Err(e) => assoc_get(toolchains@, name@) is None && (e matches
                BuildError::ToolchainNotFound(n) && n@ == name@),
        },
{
    match crate::table::assoc_find(toolchains, name) {
        Some(t) => Ok(t),
        None => Err(BuildError::ToolchainNotFound(String::from_str(name))),
    }
}

/// The format of that name, or an error naming it.
pub fn get_format<'a>(name: &str, formats: &'a Vec<(String, Format)>) -> (r: Result<
    &'a Format,
    BuildError,
>)
    ensures
        match r {
            Ok(f) => assoc_get(formats@, name@) == Some(*f),
            Err(e) => assoc_get(formats@, name@) is None && (e matches BuildError::FormatNotFound(
                n,
            ) && n@ == name@),
        },
{
    match crate::table::assoc_find(formats, name) {
        Some(f) => Ok(f),
        None => Err(BuildError::FormatNotFound(String::from_str(name))),
    }
}

/// The flag-set names selected by one `FlagsSpecific`: the unconditional ones
/// followed by those of the given mode.
pub open spec fn spec_specific_flags(fs: FlagsSpecific, mode: Seq<char>) -> Seq<String> {
    fs.always@ + match assoc_get(fs.modes@, mode) {
        Some(v) => v@,
        None => Seq::<String>::empty(),
    }
}

/// The per-platform selection for the given operating system name.
pub open spec fn spec_platform_flags(p: Option<FlagsPlatform>, os: Seq<char>) -> Option<
    FlagsSpecific,
> {
    match p {
        Some(fp) => if os == "windows"@ {
            fp.windows
        } else if os == "linux"@ {
            fp.linux
        } else if os == "macos"@ {
            fp.macos
        } else {
            None
        },
        None => None,
    }
}

/// All flag-set names a flag group selects for an operating system and mode:
/// the global ones, then the platform ones.
pub open spec fn spec_resolve_flags(f: Flags, os: Seq<char>, mode: Seq<char>) -> Seq<String> {
    spec_specific_flags(f.global, mode) + match spec_platform_flags(f.platforms, os) {
        Some(fs) => spec_specific_flags(fs, mode),
        None => Seq::<String>::empty(),
    }
}

fn push_specific(out: &mut Vec<String>, fs: &FlagsSpecific, mode: &str)
    ensures
        final(out)@ == old(out)@ + spec_specific_flags(*fs, mode@),
{
    let n = fs.always.len();
    let mut i: usize = 0;
    while i < n
        invariant
            i <= n,
            n == fs.always@.len(),
            out@ == old(out)@ + fs.always@.subrange(0, i as int),
        decreases n - i,
    {
        out.push(fs.always[i].clone());
        assert(out@ =~= old(out)@ + fs.always@.subrange(0, i + 1));
        i += 1;
    }
    assert(fs.always@.subrange(0, n as int) =~= fs.always@);
    match crate::table::assoc_find(&fs.modes, mode) {
        Some(v) => {
            let m = v.len();
            let ghost mid = out@;
            let mut j: usize = 0;
            while j < m
                invariant
                    j <= m,
                    m == v@.len(),
                    out@ == mid + v@.subrange(0, j as int),
                decreases m - j,
            {
                out.push(v[j].clone());
                assert(out@ =~= mid + v@.subrange(0, j + 1));
                j += 1;
            }
            assert(v@.subrange(0, m as int) =~= v@);
            assert(out@ =~= old(out)@ + spec_specific_flags(*fs, mode@));
        },
        None => {
            assert(out@ =~= old(out)@ + spec_specific_flags(*fs, mode@));
        },
    }
}

/// The flag-set names a flag group selects for the given operating system
/// and mode.
pub fn resolve_flags(f: &Flags, os: &str, mode: &str) -> (r: Vec<String>)
    ensures
        r@ == spec_resolve_flags(*f, os@, mode@),
{
    let mut out: Vec<String> = Vec::new();
    push_specific(&mut out, &f.global, mode);
    let platform: Option<&FlagsSpecific> = match &f.platforms {
        Some(fp) => {
            if crate::text::str_eq(os, "windows") {
                fp.windows.as_ref()
            } else if crate::text::str_eq(os, "linux") {
                fp.linux.as_ref()
            } else if crate::text::str_eq(os, "macos") {
                fp.macos.as_ref()
            } else {
                None
            }
        },
        None => None,
    };
    match platform {
        Some(fs) => {
            push_specific(&mut out, fs, mode);
        },
        None => {},
    }
    assert(out@ =~= spec_resolve_flags(*f, os@, mode@));
    out
}

/// Flag-set names replaced by their members: a name bound in `flagsets`
/// contributes its members, any other name stands for itself.
pub open spec fn spec_expand_flagsets(names: Seq<String>, sets: Seq<(String, Vec<String>)>) -> Seq<
    String,
>
    decreases names.len(),
{
    if names.len() == 0 {
        Seq::<String>::empty()
    } else {
        (match assoc_get(sets, names[0]@) {
            Some(v) => v@,
            None => seq![names[0]],
        }) + spec_expand_flagsets(names.drop_first(), sets)
    }
}

proof fn lemma_expand_flagsets_take(names: Seq<String>, sets: Seq<(String, Vec<String>)>, i: int)
    requires
        0 <= i < names.len(),
    ensures
        spec_expand_flagsets(names.take(i + 1), sets) == spec_expand_flagsets(names.take(i), sets)
            + (match assoc_get(sets, names[i]@) {
            Some(v) => v@,
            None => seq![names[i]],
        }),
    decreases i,
{
    let a = names.take(i + 1);
    let b = names.take(i);
    if i == 0 {
        assert(a.drop_first() =~= Seq::<String>::empty());
        assert(b =~= Seq::<String>::empty());
        assert(spec_expand_flagsets(a, sets) =~= spec_expand_flagsets(b, sets) + (match assoc_get(
            sets,
            names[0]@,
        ) {
            Some(v) => v@,
            None => seq![names[0]],
        }));
    } else {
        lemma_expand_flagsets_take(names.drop_first(), sets, i - 1);
        assert(names.drop_first().take(i) =~= a.drop_first());
        assert(names.drop_first().take(i - 1) =~= b.drop_first());
        assert(a[0] == names[0] && b[0] == names[0]);
        assert(names.drop_first()[i - 1] == names[i]);
    }
}

/// Replaces each flag-set name by its members, keeping unknown names as
/// literal flags.
pub fn expand_flagsets(names: &Vec<String>, sets: &Vec<(String, Vec<String>)>) -> (r: Vec<String>)
    ensures
        r@ == spec_expand_flagsets(names@, sets@),
{
    let n = names.len();
    let mut out: Vec<String> = Vec::new();
    let mut i: usize = 0;
    while i < n
        invariant
            i <= n,
            n == names@.len(),
            out@ == spec_expand_flagsets(names@.take(i as int), sets@),
        decreases n - i,
    {
        proof {
            lemma_expand_flagsets_take(names@, sets@, i as int);
        }
        match crate::table::assoc_find(sets, names[i].as_str()) {
            Some(v) => {
                let m = v.len();
                let ghost mid = out@;
                let mut j: usize = 0;
                while j < m
                    invariant
                        j <= m,
                        m == v@.len(),
                        out@ == mid + v@.subrange(0, j as int),
                    decreases m - j,
                {
                    out.push(v[j].clone());
                    assert(out@ =~= mid + v@.subrange(0, j + 1));
                    j += 1;
                }
                assert(v@.subrange(0, m as int) =~= v@);
            },
            None => {
                out.push(names[i].clone());
            },
        }
        i += 1;
    }
    assert(names@.take(n as int) =~= names@);
    out
}

} // verus!
