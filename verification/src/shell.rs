//! The shell's per-line decisions: what a parsed line does to the
//! environment. The driver's loop — read, parse, decide, execute —
//! performs the reading and the process execution; every decision about
//! variables and argument values is made here.
use vstd::prelude::*;

use crate::environment::Environment;
use crate::environment::EnvironmentModel;
use crate::expand::rendered;
use crate::expand::shellstring_to_string;
use crate::grammar::SetVariableModel;
use crate::parser::Parser;
use crate::parser::SetVariable;
use crate::prompt::Prompt;

verus! {

/// A user shell: an input prompt and a line parser.
pub struct Shell<R: Prompt> {
    pub prompt: R,
    pub parser: Parser,
}

/// What applying a line of assignments does to the environment: each
/// value is rendered against the variables as they stand — an earlier
/// assignment on the same line is already visible — and bound, in order.
/// Nothing is exported.
pub open spec fn set_vars_fold(m: EnvironmentModel, vars: Seq<SetVariableModel>) -> EnvironmentModel
    decreases vars.len(),
{
    if vars.len() == 0 {
        m
    } else {
        let sv = vars[0];
        set_vars_fold(
            EnvironmentModel { vars: m.vars.insert(sv.name, rendered(sv.value, m.vars)), ..m },
            vars.skip(1),
        )
    }
}

/// What a command's assignment prefix does to its private environment:
/// as above, but each variable is also exported, so that the command
/// process sees it.
pub open spec fn command_vars_fold(
    m: EnvironmentModel,
    vars: Seq<SetVariableModel>,
) -> EnvironmentModel
    decreases vars.len(),
{
    if vars.len() == 0 {
        m
    } else {
        let sv = vars[0];
        let value = rendered(sv.value, m.vars);
        command_vars_fold(
            EnvironmentModel {
                vars: m.vars.insert(sv.name, value),
                exported_vars: m.exported_vars.insert(sv.name, value),
                ..m
            },
            vars.skip(1),
        )
    }
}

/// Applies a line of `name=value` assignments to the environment, in
/// order, rendering each value against the environment as it stands.
pub fn apply_set_variables(env: &mut Environment, vars: &Vec<SetVariable>)
    ensures
        final(env)@ == set_vars_fold(old(env)@, vars.deep_view()),
{
    let n = vars.len();
    let mut i: usize = 0;
    proof {
        assert(vars.deep_view().skip(0) =~= vars.deep_view());
    }
    while i < n
        invariant
            i <= n,
            n == vars.len(),
            set_vars_fold(env@, vars.deep_view().skip(i as int)) == set_vars_fold(
                old(env)@,
                vars.deep_view(),
            ),
        decreases n - i,
    {
        let value = shellstring_to_string(&vars[i].value, env);
        let _ = env.set(vars[i].name.clone(), value);
        proof {
            let rest = vars.deep_view().skip(i as int);
            assert(rest[0] == vars.deep_view()[i as int]);
            assert(vars.deep_view()[i as int] == vars@[i as int]@);
            assert(rest.skip(1) =~= vars.deep_view().skip(i + 1));
        }
        i = i + 1;
    }
    proof {
        assert(vars.deep_view().skip(n as int) =~= Seq::<SetVariableModel>::empty());
    }
}

/// The private environment a command runs in: this environment with the
/// command's assignment prefix applied and exported.
pub fn command_env(env: &Environment, vars: &Vec<SetVariable>) -> (r: Environment)
    ensures
        r@ == command_vars_fold(env@, vars.deep_view()),
{
    let mut temp = env.duplicate();
    let n = vars.len();
    let mut i: usize = 0;
    proof {
        assert(vars.deep_view().skip(0) =~= vars.deep_view());
    }
    while i < n
        invariant
            i <= n,
            n == vars.len(),
            command_vars_fold(temp@, vars.deep_view().skip(i as int)) == command_vars_fold(
                env@,
                vars.deep_view(),
            ),
        decreases n - i,
    {
        let value = shellstring_to_string(&vars[i].value, &temp);
        let _ = temp.set(vars[i].name.clone(), value);
        temp.export(vars[i].name.clone());
        proof {
            let rest = vars.deep_view().skip(i as int);
            assert(rest[0] == vars.deep_view()[i as int]);
            assert(vars.deep_view()[i as int] == vars@[i as int]@);
            assert(rest.skip(1) =~= vars.deep_view().skip(i + 1));
        }
        i = i + 1;
    }
    proof {
        assert(vars.deep_view().skip(n as int) =~= Seq::<SetVariableModel>::empty());
    }
    temp
}

/// `base` and `name` joined with a path separator; a separator that
/// `base` already ends with is not doubled.
pub open spec fn joined_path(base: Seq<char>, name: Seq<char>) -> Seq<char> {
    if base.len() > 0 && base.last() == '/' {
        base + name
    } else {
        base + seq!['/'] + name
    }
}

/// The places to look for a command, in order: an absolute name is taken
/// as it stands; a name with a separator is resolved against the working
/// directory; a bare name is looked for under each `PATH` entry, and
/// under the working directory last.
pub open spec fn search_plan(
    command: Seq<char>,
    paths: Seq<Seq<char>>,
    working_directory: Seq<char>,
) -> Seq<Seq<char>> {
    if command.len() > 0 && command[0] == '/' {
        seq![command]
    } else if exists|i: int| 0 <= i < command.len() && command[i] == '/' {
        seq![joined_path(working_directory, command)]
    } else {
        Seq::new(
            paths.len() + 1,
            |i: int|
                if i < paths.len() {
                    joined_path(paths[i], command)
                } else {
                    joined_path(working_directory, command)
                },
        )
    }
}

/// `base` and `name` joined with a path separator.
fn join_path(base: &String, name: &String) -> (r: String)
    ensures
        r@ == joined_path(base@, name@),
{
    let v = crate::parser::str_chars(base.as_str());
    let mut r = base.clone();
    if !(v.len() > 0 && v[v.len() - 1] == '/') {
        r.append("/");
        proof {
            reveal_strlit("/");
            assert(r@ =~= base@ + seq!['/']);
        }
    }
    r.append(name.as_str());
    r
}

/// The candidate paths at which to look for `command`, in the order the
/// shell tries them.
pub fn candidate_paths(command: &String, paths: &Vec<String>, working_directory: &String) -> (r:
    Vec<String>)
    ensures
        r.deep_view() == search_plan(command@, paths.deep_view(), working_directory@),
{
    let v = crate::parser::str_chars(command.as_str());
    if v.len() > 0 && v[0] == '/' {
        let r = vec![command.clone()];
        proof {
            assert(r.deep_view() =~= seq![command@]);
        }
        return r;
    }
    let mut has_separator = false;
    let mut i: usize = 0;
    while i < v.len()
        invariant
            i <= v@.len(),
            v@ == command@,
            has_separator == (exists|k: int| 0 <= k < i && v@[k] == '/'),
        decreases v@.len() - i,
    {
        if v[i] == '/' {
            has_separator = true;
        }
        i = i + 1;
    }
    if has_separator {
        let r = vec![join_path(working_directory, command)];
        proof {
            assert(r.deep_view() =~= seq![joined_path(working_directory@, command@)]);
        }
        return r;
    }
    let n = paths.len();
    let mut r: Vec<String> = Vec::new();
    let mut j: usize = 0;
    while j < n
        invariant
            j <= n,
            n == paths.len(),
            r.deep_view().len() == j as int,
            r@.len() == j as int,
            forall|m: int|
                0 <= m < j ==> (#[trigger] r.deep_view()[m]) == joined_path(
                    paths.deep_view()[m],
                    command@,
                ),
        decreases n - j,
    {
        let candidate = join_path(&paths[j], command);
        let ghost r0 = r@;
        let ghost rd0 = r.deep_view();
        r.push(candidate);
        proof {
            assert forall|m: int|
                0 <= m < j + 1 implies (#[trigger] r.deep_view()[m]) == joined_path(
                paths.deep_view()[m],
                command@,
            ) by {
                if m < j {
                    assert(r@[m] == r0[m]);
                    assert(r.deep_view()[m] == rd0[m]);
                    assert(rd0[m] == joined_path(paths.deep_view()[m], command@));
                } else {
                    assert(r.deep_view()[m] == joined_path(paths.deep_view()[m], command@));
                }
            }
        }
        j = j + 1;
    }
    let last = join_path(working_directory, command);
    let ghost r1 = r@;
    let ghost rd1 = r.deep_view();
    r.push(last);
    proof {
        let plan = search_plan(command@, paths.deep_view(), working_directory@);
        assert forall|m: int| 0 <= m < n + 1 implies (#[trigger] r.deep_view()[m]) == plan[m] by {
            if m < n {
                assert(r@[m] == r1[m]);
                assert(r.deep_view()[m] == rd1[m]);
                assert(rd1[m] == joined_path(paths.deep_view()[m], command@));
            } else {
                assert(r.deep_view()[m] == joined_path(working_directory@, command@));
            }
        }
        assert(r.deep_view().len() == n + 1);
        assert(r.deep_view() =~= plan);
    }
    r
}

} // verus!
