//! The decision core of the target resolver. The caller walks the target
//! graph and performs file access and process execution; every decision on
//! the way — memoization, cycle detection, invocation mode, input
//! collection, dependency augmentation, run directives — is made here.

use vstd::prelude::*;
use vstd::string::*;
use crate::model::{BuildError, Target};
use crate::table::store_get;
use crate::text::str_eq;

verus! {

/// The resolution state of a target: being resolved (used for cycle
/// detection), or resolved with its outputs.
pub enum TargetState {
    InProgress,
    Done(Vec<String>),
}

/// The per-run memo table: target id to resolution state. Updates append,
/// lookup takes the latest entry.
pub struct Memo {
    pub entries: Vec<(String, TargetState)>,
}

/// What beginning to resolve a target finds: outputs already computed, a
/// dependency cycle, or fresh work.
pub enum BeginResolve {
    Cached(Vec<String>),
    Cycle,
    Fresh,
}

impl Memo {
    /// An empty memo table.
    pub fn new() -> (r: Self)
        ensures
            r.entries@.len() == 0,
    {
        Memo { entries: Vec::new() }
    }

    /// The latest recorded state of a target, if any.
    pub open spec fn spec_state(self, id: Seq<char>) -> Option<TargetState> {
        store_get(self.entries@, id)
    }

    /// Starts resolving a target: returns the stored outputs if it is done,
    /// reports a cycle if it is already being resolved, and otherwise marks
    /// it in progress.
    pub fn begin_target(&mut self, name: &str) -> (r: BeginResolve)
        ensures
            match r {
                BeginResolve::Cached(outs) => (old(self).spec_state(name@) matches Some(
                    TargetState::Done(o),
                ) && outs@ == o@) && final(self).entries@ == old(self).entries@,
                BeginResolve::Cycle => old(self).spec_state(name@) matches Some(
                    TargetState::InProgress,
                ) && final(self).entries@ == old(self).entries@,
                BeginResolve::Fresh => old(self).spec_state(name@) is None
                    && final(self).entries@.len() == old(self).entries@.len() + 1
                    && final(self).entries@.drop_last() == old(self).entries@
                    && final(self).entries@.last().0@ == name@
                    && final(self).entries@.last().1 is InProgress,
            },
    {
        match crate::table::store_find(&self.entries, name) {
            Some(state) => {
                match state {
                    TargetState::InProgress => BeginResolve::Cycle,
                    TargetState::Done(outs) => BeginResolve::Cached(outs.clone()),
                }
            },
            None => {
                self.entries.push((String::from_str(name), TargetState::InProgress));
                BeginResolve::Fresh
            },
        }
    }

    /// Records a target as resolved with its outputs.
    pub fn finish_target(&mut self, name: &str, outputs: Vec<String>)
        ensures
            final(self).spec_state(name@) matches Some(TargetState::Done(o)) && o@ == outputs@,
            forall|k: Seq<char>|
                k != name@ ==> #[trigger] final(self).spec_state(k) == old(self).spec_state(k),
    {
        self.entries.push((String::from_str(name), TargetState::Done(outputs)));
        proof {
            let es = self.entries@;
            assert(es.last().0@ == name@);
            assert(es.drop_last() =~= old(self).entries@);
            assert forall|k: Seq<char>|
                k != name@ implies #[trigger] final(self).spec_state(k) == old(self).spec_state(
                k,
            ) by {
                assert(store_get(es, k) == store_get(es.drop_last(), k));
            }
        }
    }
}

/// The invocation mode of a target: the explicit `for_each` if set, else
/// per-file unless the output kind is `executable` or `static-library`.
pub open spec fn spec_for_each(t: Target) -> bool {
    match t.for_each {
        Some(b) => b,
        None => !(t.out.norm() == "executable"@ || t.out.norm() == "static-library"@),
    }
}

/// Whether a target's tool runs once per input file or once over the whole
/// input list.
pub fn for_each_mode(target: &Target) -> (r: bool)
    ensures
        r == spec_for_each(*target),
{
    match &target.for_each {
        Some(b) => *b,
        None => {
            let k = crate::model::kind_str(&target.out);
            !(str_eq(k.as_str(), "executable") || str_eq(k.as_str(), "static-library"))
        },
    }
}

/// The outputs of the dependency targets laid end to end, in declaration
/// order.
pub open spec fn concat_lists(xs: Seq<Vec<String>>) -> Seq<String>
    decreases xs.len(),
{
    if xs.len() == 0 {
        Seq::<String>::empty()
    } else {
        xs[0]@ + concat_lists(xs.drop_first())
    }
}

proof fn lemma_concat_lists_take(xs: Seq<Vec<String>>, i: int)
    requires
        0 <= i < xs.len(),
    ensures
        concat_lists(xs.take(i + 1)) == concat_lists(xs.take(i)) + xs[i]@,
    decreases i,
{
    let a = xs.take(i + 1);
    let b = xs.take(i);
    if i == 0 {
        assert(a.drop_first() =~= Seq::<Vec<String>>::empty());
        assert(b =~= Seq::<Vec<String>>::empty());
        assert(concat_lists(a) =~= concat_lists(b) + xs[0]@);
    } else {
        lemma_concat_lists_take(xs.drop_first(), i - 1);
        assert(xs.drop_first().take(i) =~= a.drop_first());
        assert(xs.drop_first().take(i - 1) =~= b.drop_first());
        assert(xs.drop_first()[i - 1] == xs[i]);
        assert(concat_lists(a) =~= concat_lists(b) + xs[i]@);
    }
}

/// Concatenates the dependency outputs in declaration order into one input
/// list.
pub fn concat_outputs(dep_outputs: &Vec<Vec<String>>) -> (r: Vec<String>)
    ensures
        r@ == concat_lists(dep_outputs@),
{
    let n = dep_outputs.len();
    let mut out: Vec<String> = Vec::new();
    let mut i: usize = 0;
    proof {
        assert(dep_outputs@.take(0) =~= Seq::<Vec<String>>::empty());
        assert(out@ =~= concat_lists(dep_outputs@.take(0)));
    }
    while i < n
        invariant
            i <= n,
            n == dep_outputs@.len(),
            out@ == concat_lists(dep_outputs@.take(i as int)),
        decreases n - i,
    {
        proof {
            lemma_concat_lists_take(dep_outputs@, i as int);
        }
        let mut piece = dep_outputs[i].clone();
        proof {
            assert(piece@ =~= dep_outputs@[i as int]@);
        }
        out.append(&mut piece);
        i += 1;
    }
    proof {
        assert(dep_outputs@.take(n as int) =~= dep_outputs@);
    }
    out
}

/// The dependency-listing tokens that exist on disk, in order; the flags
/// come from the caller, which alone can ask the file system.
pub open spec fn keep_flagged(deps: Seq<String>, flags: Seq<bool>) -> Seq<String>
    decreases deps.len(),
{
    if deps.len() == 0 || flags.len() == 0 {
        Seq::<String>::empty()
    } else {
        (if flags[0] {
            seq![deps[0]]
        } else {
            Seq::<String>::empty()
        }) + keep_flagged(deps.drop_first(), flags.drop_first())
    }
}

proof fn lemma_keep_flagged_take(deps: Seq<String>, flags: Seq<bool>, i: int)
    requires
        0 <= i < deps.len(),
        deps.len() == flags.len(),
    ensures
        keep_flagged(deps.take(i + 1), flags.take(i + 1)) == keep_flagged(
            deps.take(i),
            flags.take(i),
        ) + (if flags[i] {
            seq![deps[i]]
        } else {
            Seq::<String>::empty()
        }),
    decreases i,
{
    let a = deps.take(i + 1);
    let fa = flags.take(i + 1);
    let b = deps.take(i);
    let fb = flags.take(i);
    if i == 0 {
        assert(a.drop_first() =~= Seq::<String>::empty());
        assert(fa.drop_first() =~= Seq::<bool>::empty());
        assert(b =~= Seq::<String>::empty());
        assert(keep_flagged(a.drop_first(), fa.drop_first()) =~= Seq::<String>::empty());
        assert(keep_flagged(b, fb) =~= Seq::<String>::empty());
        assert(keep_flagged(a, fa) =~= keep_flagged(b, fb) + (if flags[0] {
            seq![deps[0]]
        } else {
            Seq::<String>::empty()
        }));
    } else {
        lemma_keep_flagged_take(deps.drop_first(), flags.drop_first(), i - 1);
        assert(deps.drop_first().take(i) =~= a.drop_first());
        assert(flags.drop_first().take(i) =~= fa.drop_first());
        assert(deps.drop_first().take(i - 1) =~= b.drop_first());
        assert(flags.drop_first().take(i - 1) =~= fb.drop_first());
        assert(deps.drop_first()[i - 1] == deps[i]);
        assert(flags.drop_first()[i - 1] == flags[i]);
        assert(keep_flagged(a, fa) =~= keep_flagged(b, fb) + (if flags[i] {
            seq![deps[i]]
        } else {
            Seq::<String>::empty()
        }));
    }
}

/// Widens a step's fingerprint input set: the direct inputs, then the
/// dependency-listing tokens whose flag says the file exists. A token whose
/// flag is false is only warned about by the caller, never an error.
pub fn augment_inputs(direct: &Vec<String>, deps: &Vec<String>, exists_flags: &Vec<bool>) -> (r:
    Vec<String>)
    requires
        deps@.len() == exists_flags@.len(),
    ensures
        r@ == direct@ + keep_flagged(deps@, exists_flags@),
{
    let mut out = direct.clone();
    proof {
        assert(out@ =~= direct@);
        assert(deps@.take(0) =~= Seq::<String>::empty());
        assert(exists_flags@.take(0) =~= Seq::<bool>::empty());
        assert(out@ =~= direct@ + keep_flagged(deps@.take(0), exists_flags@.take(0)));
    }
    let n = deps.len();
    let mut i: usize = 0;
    while i < n
        invariant
            i <= n,
            n == deps@.len() == exists_flags@.len(),
            out@ == direct@ + keep_flagged(deps@.take(i as int), exists_flags@.take(i as int)),
        decreases n - i,
    {
        proof {
            lemma_keep_flagged_take(deps@, exists_flags@, i as int);
        }
        if exists_flags[i] {
            out.push(deps[i].clone());
        }
        proof {
            assert(out@ =~= direct@ + keep_flagged(deps@.take(i + 1), exists_flags@.take(i + 1)));
        }
        i += 1;
    }
    proof {
        assert(deps@.take(n as int) =~= deps@);
        assert(exists_flags@.take(n as int) =~= exists_flags@);
    }
    out
}

/// One planned tool invocation: its ordered input set and its output path.
pub struct Invocation {
    pub inputs: Vec<String>,
    pub output: String,
}

/// The output path of one step: the output-path template rendered against
/// the input, placed under the build directory.
pub open spec fn spec_step_output(
    build_dir: Seq<char>,
    template: Seq<char>,
    input: Seq<char>,
) -> Seq<char> {
    build_dir + seq!['/'] + crate::text::join_with(
        crate::text::split_on(template, "{INPUT}"@),
        input,
    )
}

fn step_output(build_dir: &str, template: &str, input: &str) -> (r: String)
    ensures
        r@ == spec_step_output(build_dir@, template@, input@),
{
    let mut out = String::from_str(build_dir);
    out.append("/");
    let rendered = crate::paths::render_out_path(template, input);
    out.append(rendered.as_str());
    proof {
        reveal_strlit("/");
        assert("/"@ =~= seq!['/']);
    }
    out
}

/// The invocations of one target over its resolved input list: one per
/// input in per-file mode, one over the whole list otherwise; each output
/// is the rendered output-path template under the build directory.
pub fn plan_invocations(target: &Target, inputs: &Vec<String>, build_dir: &str) -> (r: Vec<
    Invocation,
>)
    ensures
        spec_for_each(*target) ==> r@.len() == inputs@.len() && forall|i: int|
            0 <= i < r@.len() ==> (#[trigger] r@[i]).inputs@ == seq![inputs@[i]]
                && r@[i].output@ == spec_step_output(
                build_dir@,
                target.out_path@,
                inputs@[i]@,
            ),
        !spec_for_each(*target) && inputs@.len() == 0 ==> r@.len() == 0,
        !spec_for_each(*target) && inputs@.len() > 0 ==> r@.len() == 1 && r@[0].inputs@ == inputs@
            && r@[0].output@ == spec_step_output(build_dir@, target.out_path@, inputs@[0]@),
{
    let mut r: Vec<Invocation> = Vec::new();
    if for_each_mode(target) {
        let n = inputs.len();
        let mut i: usize = 0;
        while i < n
            invariant
                i <= n,
                n == inputs@.len(),
                r@.len() == i,
                forall|j: int|
                    0 <= j < i ==> (#[trigger] r@[j]).inputs@ == seq![inputs@[j]] && r@[j].output@
                        == spec_step_output(build_dir@, target.out_path@, inputs@[j]@),
            decreases n - i,
        {
            let output = step_output(build_dir, target.out_path.as_str(), inputs[i].as_str());
            let mut one_input: Vec<String> = Vec::new();
            one_input.push(inputs[i].clone());
            proof {
                assert(one_input@ =~= seq![inputs@[i as int]]);
            }
            r.push(Invocation { inputs: one_input, output });
            i += 1;
        }
    } else if inputs.len() > 0 {
        let output = step_output(build_dir, target.out_path.as_str(), inputs[0].as_str());
        r.push(Invocation { inputs: inputs.clone(), output });
        proof {
            assert(r@[0].inputs@ =~= inputs@);
        }
    }
    r
}

/// A structured run directive: the four verbs the mini-language knows.
#[derive(Debug)]
pub enum RunAction {
    Execute { program: String, args: Vec<String> },
    Delete { path: String },
    Copy { src: String, dst: String },
    Move { src: String, dst: String },
}

/// What parsing a word list as a run directive must yield: nothing for an
/// empty list; each verb with its required arguments; an error naming the
/// verb for any other verb or missing argument.
pub open spec fn run_parse_ok(
    words: Seq<Seq<char>>,
    r: Result<Option<RunAction>, BuildError>,
) -> bool {
    if words.len() == 0 {
        r matches Ok(a) && a is None
    } else if words[0] == "execute"@ {
        if words.len() >= 2 {
            r matches Ok(a) && (a matches Some(RunAction::Execute { program, args }) && program@
                == words[1] && args.deep_view() == words.skip(2))
        } else {
            r matches Err(e) && (e matches BuildError::RunDirectiveInvalid(w) && w@ == words[0])
        }
    } else if words[0] == "delete"@ {
        if words.len() >= 2 {
            r matches Ok(a) && (a matches Some(RunAction::Delete { path }) && path@ == words[1])
        } else {
            r matches Err(e) && (e matches BuildError::RunDirectiveInvalid(w) && w@ == words[0])
        }
    } else if words[0] == "copy"@ {
        if words.len() >= 3 {
            r matches Ok(a) && (a matches Some(RunAction::Copy { src, dst }) && src@ == words[1]
                && dst@ == words[2])
        } else {
            r matches Err(e) && (e matches BuildError::RunDirectiveInvalid(w) && w@ == words[0])
        }
    } else if words[0] == "move"@ {
        if words.len() >= 3 {
            r matches Ok(a) && (a matches Some(RunAction::Move { src, dst }) && src@ == words[1]
                && dst@ == words[2])
        } else {
            r matches Err(e) && (e matches BuildError::RunDirectiveInvalid(w) && w@ == words[0])
        }
    } else {
        r matches Err(e) && (e matches BuildError::RunDirectiveInvalid(w) && w@ == words[0])
    }
}

/// Parses a word list as a run directive: `execute <prog> [args…]`,
/// `delete <path>`, `copy <src> <dst>` or `move <src> <dst>`. Any other
/// verb, or a missing argument, is an error; an empty list asks for nothing.
pub fn parse_run_directive(parts: &Vec<String>) -> (r: Result<Option<RunAction>, BuildError>)
    ensures
        run_parse_ok(parts.deep_view(), r),
{
    proof {
        assert forall|k: int|
            0 <= k < parts@.len() implies #[trigger] parts.deep_view()[k] == parts@[k]@ by {}
    }
    if parts.len() == 0 {
        return Ok(None);
    }
    let verb = &parts[0];
    if str_eq(verb.as_str(), "execute") {
        if parts.len() >= 2 {
            let program = parts[1].clone();
            let mut args: Vec<String> = Vec::new();
            let n = parts.len();
            let mut i: usize = 2;
            proof {
                assert(args.deep_view() =~= parts.deep_view().subrange(2, 2));
            }
            while i < n
                invariant
                    2 <= i <= n,
                    n == parts@.len(),
                    args.deep_view() == parts.deep_view().subrange(2, i as int),
                decreases n - i,
            {
                let a = parts[i].clone();
                proof {
                    assert(a@ == parts.deep_view()[i as int]);
                    assert(a.deep_view() == a@);
                }
                crate::text::push_deep(&mut args, a);
                proof {
                    assert(args.deep_view() =~= parts.deep_view().subrange(2, i + 1));
                }
                i += 1;
            }
            proof {
                assert(parts.deep_view().subrange(2, n as int) =~= parts.deep_view().skip(2));
            }
            Ok(Some(RunAction::Execute { program, args }))
        } else {
            Err(BuildError::RunDirectiveInvalid(verb.clone()))
        }
    } else if str_eq(verb.as_str(), "delete") {
        if parts.len() >= 2 {
            Ok(Some(RunAction::Delete { path: parts[1].clone() }))
        } else {
            Err(BuildError::RunDirectiveInvalid(verb.clone()))
        }
    } else if str_eq(verb.as_str(), "copy") {
        if parts.len() >= 3 {
            Ok(Some(RunAction::Copy { src: parts[1].clone(), dst: parts[2].clone() }))
        } else {
            Err(BuildError::RunDirectiveInvalid(verb.clone()))
        }
    } else if str_eq(verb.as_str(), "move") {
        if parts.len() >= 3 {
            Ok(Some(RunAction::Move { src: parts[1].clone(), dst: parts[2].clone() }))
        } else {
            Err(BuildError::RunDirectiveInvalid(verb.clone()))
        }
    } else {
        Err(BuildError::RunDirectiveInvalid(verb.clone()))
    }
}

/// What shlex::split yields on a command line, when it is well-formed.
pub uninterp spec fn shell_split(s: Seq<char>) -> Option<Seq<Seq<char>>>;

/// Relies on shlex::split: POSIX-shell word splitting, a function of the
/// characters alone; erroneous input (such as an unclosed quote) yields
/// nothing.
#[verifier::external_body]
fn shell_split_exec(s: &str) -> (r: Option<Vec<String>>)
    ensures
        ({
            let sp = shell_split(s@);
            match r {
                Some(v) => sp matches Some(w) && v.deep_view() == w,
                None => sp is None,
            }
        }),
{
    shlex::split(s)
}

/// Splits a run directive into words and parses it. A command line that does
/// not split (an unclosed quote) asks for nothing, as does an empty one.
pub fn plan_run(command: &str) -> (r: Result<Option<RunAction>, BuildError>)
    ensures
        match shell_split(command@) {
            Some(words) => run_parse_ok(words, r),
            None => r matches Ok(a) && a is None,
        },
{
    match shell_split_exec(command) {
        Some(parts) => parse_run_directive(&parts),
        None => Ok(None),
    }
}

} // verus!
