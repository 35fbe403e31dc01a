//! The shell builtins whose behaviour is pure computation over the
//! environment and the argument strings.
use vstd::prelude::*;

use crate::environment::Environment;
use crate::environment::EnvironmentModel;
use crate::grammar::is_digit_char;
use crate::grammar::sp_digits_val;

verus! {

/// The error type for running commands.
#[derive(Debug, PartialEq)]
pub enum Error {
    /// The command could not be found anywhere.
    UnknownCommand,
    /// A generic error for unknown or uncategorized failures.
    Unknown,
}

/// Exit status for executing a command.
#[derive(Debug, PartialEq)]
pub enum ExitStatus {
    /// Instructs the caller that the command requested that the shell
    /// exit, with the given status.
    ExitWith(u32),
    /// The command ran, with the given status code.
    Success(u32),
}

/// Whether `t` is a run of one or more decimal digits.
pub open spec fn all_digits(t: Seq<char>) -> bool {
    t.len() > 0 && forall|i: int| 0 <= i < t.len() ==> is_digit_char(t[i])
}

/// The number a decimal literal denotes, exactly as `u32` reads it: an
/// optional leading `+`, then one or more digits, with a value that fits.
pub open spec fn parse_u32_model(t: Seq<char>) -> Option<int> {
    let digits = if t.len() > 0 && t[0] == '+' {
        t.skip(1)
    } else {
        t
    };
    if all_digits(digits) && sp_digits_val(digits) <= 0xffff_ffff {
        Some(sp_digits_val(digits))
    } else {
        None
    }
}

/// The status that `exit` answers with: the lone argument's number, 255
/// when it is not a number, 0 with no argument at all; more than one
/// argument is refused with a plain status 1.
pub open spec fn exit_model(args: Seq<Seq<char>>) -> Result<ExitStatus, Error> {
    if args.len() == 0 {
        Ok(ExitStatus::ExitWith(0))
    } else if args.len() == 1 {
        match parse_u32_model(args[0]) {
            Some(n) => Ok(ExitStatus::ExitWith(n as u32)),
            None => Ok(ExitStatus::ExitWith(255)),
        }
    } else {
        Ok(ExitStatus::Success(1))
    }
}

proof fn lemma_digits_nonneg(t: Seq<char>)
    requires
        forall|k: int| 0 <= k < t.len() ==> is_digit_char(t[k]),
    ensures
        sp_digits_val(t) >= 0,
    decreases t.len(),
{
    if t.len() > 0 {
        lemma_digits_nonneg(t.drop_last());
    }
}

/// Reads `s` as a `u32` literal: an optional `+` sign, then digits.
fn parse_u32(s: &String) -> (r: Option<u32>)
    ensures
        match r {
            Some(n) => parse_u32_model(s@) == Some(n as int),
            None => parse_u32_model(s@) is None,
        },
{
    let v = crate::parser::str_chars(s.as_str());
    let n = v.len();
    let start: usize = if n > 0 && v[0] == '+' {
        1
    } else {
        0
    };
    let ghost digits = if s@.len() > 0 && s@[0] == '+' {
        s@.skip(1)
    } else {
        s@
    };
    if start >= n {
        proof {
            assert(digits.len() == 0);
        }
        return None;
    }
    let mut val: u64 = 0;
    let mut i: usize = start;
    while i < n
        invariant
            start <= i <= n,
            n == v@.len(),
            v@ == s@,
            start < n,
            start == (if s@.len() > 0 && s@[0] == '+' {
                1int
            } else {
                0int
            }),
            digits == (if s@.len() > 0 && s@[0] == '+' {
                s@.skip(1)
            } else {
                s@
            }),
            forall|k: int| start <= k < i ==> is_digit_char(v@[k]),
            0 <= val <= 0xffff_ffff,
            val as int == sp_digits_val(v@.subrange(start as int, i as int)),
        decreases n - i,
    {
        let c = v[i];
        if !crate::parser::is_digit_character(c) {
            proof {
                assert(digits[i - start] == v@[i as int]);
                assert(!all_digits(digits));
            }
            return None;
        }
        let d = (c as u32) - 48;
        proof {
            let t = v@.subrange(start as int, i + 1 as int);
            assert(t.drop_last() =~= v@.subrange(start as int, i as int));
            assert(t.last() == v@[i as int]);
        }
        let next = val * 10 + (d as u64);
        if next > 0xffff_ffff {
            proof {
                assert(digits =~= v@.subrange(start as int, n as int));
                lemma_digits_prefix_from(v@, start as int, i + 1, n as int);
            }
            return None;
        }
        val = next;
        i = i + 1;
    }
    proof {
        assert(digits =~= v@.subrange(start as int, n as int));
        assert(all_digits(digits));
    }
    Some(val as u32)
}

proof fn lemma_digits_prefix_from(s: Seq<char>, from: int, mid: int, to: int)
    requires
        0 <= from <= mid <= to <= s.len(),
        forall|k: int| from <= k < mid ==> is_digit_char(s[k]),
    ensures
        !all_digits(s.subrange(from, to)) || sp_digits_val(s.subrange(from, to)) >= sp_digits_val(
            s.subrange(from, mid),
        ),
    decreases to - mid,
{
    let whole = s.subrange(from, to);
    if all_digits(whole) {
        assert(forall|k: int| from <= k < to ==> is_digit_char(#[trigger] s[k])) by {
            assert(forall|k: int|
                from <= k < to ==> whole[k - from] == s[k] && is_digit_char(whole[k - from]));
        }
        if mid == to {
            assert(s.subrange(from, to) =~= s.subrange(from, mid));
        } else {
            lemma_digits_prefix_from(s, from, mid + 1, to);
            let t = s.subrange(from, mid + 1);
            assert(t.drop_last() =~= s.subrange(from, mid));
            assert(t.last() == s[mid]);
            lemma_digits_nonneg(s.subrange(from, mid));
        }
    }
}

/// The `exit` builtin: asks the shell to exit with the given status.
pub fn exit(args: &Vec<String>) -> (r: Result<ExitStatus, Error>)
    ensures
        r == exit_model(args.deep_view()),
{
    if args.len() == 0 {
        Ok(ExitStatus::ExitWith(0))
    } else if args.len() == 1 {
        proof {
            assert(args.deep_view()[0] == args@[0]@);
        }
        match parse_u32(&args[0]) {
            Some(n) => Ok(ExitStatus::ExitWith(n)),
            None => Ok(ExitStatus::ExitWith(255)),
        }
    } else {
        Ok(ExitStatus::Success(1))
    }
}

/// The `pushd` builtin: pushes its one argument onto the directory
/// stack; any other number of arguments is refused with status 1.
pub fn pushd(env: &mut Environment, args: &Vec<String>) -> (r: Result<ExitStatus, Error>)
    ensures
        args.len() == 1 ==> final(env)@ == (EnvironmentModel {
            directory_stack: old(env)@.directory_stack.push(args.deep_view()[0]),
            ..old(env)@
        }) && r == Ok::<ExitStatus, Error>(ExitStatus::Success(0)),
        args.len() != 1 ==> final(env)@ == old(env)@ && r == Ok::<ExitStatus, Error>(
            ExitStatus::Success(1),
        ),
{
    if args.len() == 1 {
        env.push_directory(args[0].clone());
        proof {
            assert(args.deep_view()[0] == args@[0]@);
        }
        Ok(ExitStatus::Success(0))
    } else {
        Ok(ExitStatus::Success(1))
    }
}

/// The first position at or after `i` that holds `=` (or the end).
pub open spec fn find_eq(t: Seq<char>, i: int) -> int
    decreases t.len() - i,
    when 0 <= i <= t.len()
{
    if i < t.len() && t[i] != '=' {
        find_eq(t, i + 1)
    } else {
        i
    }
}

proof fn lemma_find_eq_bounds(t: Seq<char>, i: int)
    requires
        0 <= i <= t.len(),
    ensures
        i <= find_eq(t, i) <= t.len(),
        forall|k: int| i <= k < find_eq(t, i) ==> t[k] != '=',
        find_eq(t, i) < t.len() ==> t[find_eq(t, i)] == '=',
    decreases t.len() - i,
{
    if i < t.len() && t[i] != '=' {
        lemma_find_eq_bounds(t, i + 1);
    }
}

fn find_eq_exec(v: &Vec<char>, i: usize) -> (j: usize)
    requires
        i <= v@.len(),
    ensures
        j as int == find_eq(v@, i as int),
        i <= j <= v@.len(),
    decreases v@.len() - i,
{
    proof {
        lemma_find_eq_bounds(v@, i as int);
    }
    if i < v.len() && v[i] != '=' {
        find_eq_exec(v, i + 1)
    } else {
        i
    }
}

/// What one `export` argument does to the environment. `NAME=value` sets
/// and exports the variable — only the text between the first and second
/// `=` is the value. A bare `NAME` exports its current value, when it
/// has one.
pub open spec fn export_apply(m: EnvironmentModel, arg: Seq<char>) -> EnvironmentModel {
    let e1 = find_eq(arg, 0);
    if e1 == arg.len() {
        EnvironmentModel {
            exported_vars: if m.vars.contains_key(arg) {
                m.exported_vars.insert(arg, m.vars[arg])
            } else {
                m.exported_vars
            },
            ..m
        }
    } else {
        let name = arg.subrange(0, e1);
        let value = arg.subrange(e1 + 1, find_eq(arg, e1 + 1));
        EnvironmentModel {
            vars: m.vars.insert(name, value),
            exported_vars: m.exported_vars.insert(name, value),
            ..m
        }
    }
}

/// What a whole `export` argument list does: each argument applied in
/// order.
pub open spec fn export_fold(m: EnvironmentModel, args: Seq<Seq<char>>) -> EnvironmentModel
    decreases args.len(),
{
    if args.len() == 0 {
        m
    } else {
        export_fold(export_apply(m, args[0]), args.skip(1))
    }
}

/// Applies one `export` argument to the environment.
fn export_var(env: &mut Environment, arg: &String)
    ensures
        final(env)@ == export_apply(old(env)@, arg@),
{
    let v = crate::parser::str_chars(arg.as_str());
    proof {
        lemma_find_eq_bounds(v@, 0);
    }
    let e1 = find_eq_exec(&v, 0);
    if e1 == v.len() {
        env.export(arg.clone());
    } else {
        proof {
            lemma_find_eq_bounds(v@, e1 + 1 as int);
        }
        let e2 = find_eq_exec(&v, e1 + 1);
        let name = crate::parser::copy_range(&v, 0, e1);
        let value = crate::parser::copy_range(&v, e1 + 1, e2);
        let _ = env.set(name.clone(), value);
        env.export(name);
    }
}

/// The setting half of the `export` builtin: applies every argument to
/// the environment, in order. (With no arguments, `export` instead
/// prints the exported variables, which is the driver's work.)
pub fn export_vars(env: &mut Environment, args: &Vec<String>) -> (r: Result<ExitStatus, Error>)
    ensures
        final(env)@ == export_fold(old(env)@, args.deep_view()),
        r == Ok::<ExitStatus, Error>(ExitStatus::Success(0)),
{
    let n = args.len();
    let mut i: usize = 0;
    proof {
        assert(args.deep_view().skip(0) =~= args.deep_view());
    }
    while i < n
        invariant
            i <= n,
            n == args.len(),
            export_fold(env@, args.deep_view().skip(i as int)) == export_fold(
                old(env)@,
                args.deep_view(),
            ),
        decreases n - i,
    {
        let ghost before = env@;
        export_var(env, &args[i]);
        proof {
            let rest = args.deep_view().skip(i as int);
            assert(rest[0] == args.deep_view()[i as int]);
            assert(args.deep_view()[i as int] == args@[i as int]@);
            assert(rest.skip(1) =~= args.deep_view().skip(i + 1));
        }
        i = i + 1;
    }
    proof {
        assert(args.deep_view().skip(n as int) =~= Seq::<Seq<char>>::empty());
    }
    Ok(ExitStatus::Success(0))
}

} // verus!
