//! The command broker's argument and path assembly.
//!
//! The executable is looked for next to the working directory first and
//! under `run/cmd/<name>/` as a fallback; the child's working directory is
//! wherever the executable was found, so its relative file access stays
//! scoped.  The argument vector always starts with the fixed arguments of
//! the user's matching command grants, in grant order, and only then the
//! caller's own arguments: a caller can never reorder, override or drop
//! the granted prefix.  Spawning and the piped I/O around the child are
//! the embedding process's concern; everything here is assembly.

use vstd::prelude::*;
use vstd::string::StringExecFns;
use crate::auth::{Access, User};
use crate::comm::ArgsInputs;
use crate::utils::{path_join, path_join_spec, str_eq};

verus! {

/// The fixed arguments one grant contributes for the named command.
pub open spec fn cmd_grant_args(a: Access, name: Seq<char>) -> Seq<Seq<char>> {
    match a {
        Access::CMD { name: n, fixed_args } => if n@ == name {
            fixed_args.deep_view()
        } else {
            Seq::empty()
        },
        _ => Seq::empty(),
    }
}

/// The fixed arguments of every matching command grant, in grant order.
pub open spec fn fixed_args_spec(access: Seq<Access>, name: Seq<char>) -> Seq<Seq<char>>
    decreases access.len(),
{
    if access.len() == 0 {
        Seq::empty()
    } else {
        fixed_args_spec(access.drop_last(), name) + cmd_grant_args(access.last(), name)
    }
}

/// The caller-supplied arguments, or none.
pub open spec fn caller_args_spec(args: Option<Vec<String>>) -> Seq<Seq<char>> {
    match args {
        Some(a) => a.deep_view(),
        None => Seq::empty(),
    }
}

/// Assembles the child's argument vector: the fixed arguments granted for
/// the command first, the caller's arguments after them.
pub fn build_cmd_args(cmd_name: &str, args_inputs: &ArgsInputs, user: &User) -> (r: Vec<String>)
    ensures
        r.deep_view() == fixed_args_spec(user.access@, cmd_name@) + caller_args_spec(
            args_inputs.args,
        ),
{
    let mut out: Vec<String> = Vec::new();
    let n = user.access.len();
    let mut k: usize = 0;
    while k < n
        invariant
            n == user.access@.len(),
            k <= n,
            out.deep_view() == fixed_args_spec(user.access@.take(k as int), cmd_name@),
        decreases n - k,
    {
        match &user.access[k] {
            Access::CMD { name, fixed_args } => {
                if str_eq(name.as_str(), cmd_name) {
                    let m = fixed_args.len();
                    let mut j: usize = 0;
                    while j < m
                        invariant
                            n == user.access@.len(),
                            k < n,
                            m == fixed_args@.len(),
                            j <= m,
                            user.access@[k as int] == (Access::CMD {
                                name: *name,
                                fixed_args: *fixed_args,
                            }),
                            name@ == cmd_name@,
                            out.deep_view() == fixed_args_spec(
                                user.access@.take(k as int),
                                cmd_name@,
                            ) + fixed_args.deep_view().take(j as int),
                        decreases m - j,
                    {
                        let ghost dv0 = out.deep_view();
                        out.push(fixed_args[j].clone());
                        proof {
                            assert(out.deep_view() =~~= dv0.push(fixed_args@[j as int]@));
                            assert(fixed_args.deep_view()[j as int] == fixed_args@[j as int]@);
                            assert(fixed_args.deep_view().take(j + 1 as int)
                                =~= fixed_args.deep_view().take(j as int).push(
                                fixed_args.deep_view()[j as int],
                            ));
                            assert(dv0.push(fixed_args@[j as int]@) =~= fixed_args_spec(
                                user.access@.take(k as int),
                                cmd_name@,
                            ) + fixed_args.deep_view().take(j + 1 as int));
                        }
                        j = j + 1;
                    }
                    proof {
                        assert(fixed_args.deep_view().take(m as int) =~~= fixed_args.deep_view());
                    }
                } else {
                    proof {
                        assert(out.deep_view() + Seq::<Seq<char>>::empty() =~= out.deep_view());
                    }
                }
            },
            _ => {
                proof {
                    assert(out.deep_view() + Seq::<Seq<char>>::empty() =~= out.deep_view());
                }
            },
        }
        proof {
            assert(user.access@.take(k + 1 as int).drop_last() =~= user.access@.take(k as int));
            assert(user.access@.take(k + 1 as int).last() == user.access@[k as int]);
        }
        k = k + 1;
    }
    proof {
        assert(user.access@.take(n as int) =~= user.access@);
    }
    match &args_inputs.args {
        Some(args) => {
            let m = args.len();
            let mut j: usize = 0;
            while j < m
                invariant
                    m == args@.len(),
                    j <= m,
                    out.deep_view() == fixed_args_spec(user.access@, cmd_name@)
                        + args.deep_view().take(j as int),
                decreases m - j,
            {
                let ghost dv0 = out.deep_view();
                out.push(args[j].clone());
                proof {
                    assert(out.deep_view() =~~= dv0.push(args@[j as int]@));
                    assert(args.deep_view()[j as int] == args@[j as int]@);
                    assert(args.deep_view().take(j + 1 as int) =~= args.deep_view().take(
                        j as int,
                    ).push(args.deep_view()[j as int]));
                    assert(dv0.push(args@[j as int]@) =~= fixed_args_spec(user.access@, cmd_name@)
                        + args.deep_view().take(j + 1 as int));
                }
                j = j + 1;
            }
            proof {
                assert(args.deep_view().take(m as int) =~~= args.deep_view());
            }
        },
        None => {
            proof {
                assert(out.deep_view() + Seq::<Seq<char>>::empty() =~= out.deep_view());
            }
        },
    }
    out
}

/// Where the executable and the child's working directory are, given
/// whether the command was found right in the working directory: next to
/// it, or under the `run/cmd/<name>/` fallback.
pub fn resolve_cmd_paths(working_dir: &str, cmd_name: &str, exe_ext: &str, present_in_work_dir:
    bool) -> (r: (String, String))
    ensures
        ({
            let exec_name = cmd_name@ + exe_ext@;
            if present_in_work_dir {
                r.0@ == working_dir@ && r.1@ == path_join_spec(working_dir@, exec_name)
            } else {
                r.0@ == path_join_spec(
                    path_join_spec(path_join_spec(working_dir@, "run"@), "cmd"@),
                    cmd_name@,
                ) && r.1@ == path_join_spec(r.0@, exec_name)
            }
        }),
{
    let exec_name = cmd_name.to_owned().concat(exe_ext);
    if present_in_work_dir {
        let full_exec = path_join(working_dir, exec_name.as_str());
        (working_dir.to_owned(), full_exec)
    } else {
        let run_dir = path_join(working_dir, "run");
        let cmd_dir = path_join(run_dir.as_str(), "cmd");
        let this_dir = path_join(cmd_dir.as_str(), cmd_name);
        let full_exec = path_join(this_dir.as_str(), exec_name.as_str());
        (this_dir, full_exec)
    }
}

/// The lines fed to the child, each closed by a line feed.
pub open spec fn stdin_payload_spec(inputs: Seq<Seq<char>>) -> Seq<char>
    decreases inputs.len(),
{
    if inputs.len() == 0 {
        Seq::empty()
    } else {
        stdin_payload_spec(inputs.drop_last()) + inputs.last() + seq!['\n']
    }
}

/// Joins the caller's input lines into the byte stream for the child's
/// standard input: each line newline-terminated, in order.
pub fn stdin_payload(inputs: &Vec<String>) -> (r: String)
    ensures
        r@ == stdin_payload_spec(inputs.deep_view()),
{
    let ghost vals = inputs.deep_view();
    let mut out = String::new();
    let n = inputs.len();
    let mut i: usize = 0;
    while i < n
        invariant
            n == inputs@.len(),
            vals == inputs.deep_view(),
            vals.len() == n,
            i <= n,
            out@ == stdin_payload_spec(vals.take(i as int)),
        decreases n - i,
    {
        proof {
            assert(vals[i as int] == inputs@[i as int]@);
        }
        out.append(inputs[i].as_str());
        out.append("\n");
        proof {
            reveal_strlit("\n");
            assert(vals.take(i + 1 as int).drop_last() =~= vals.take(i as int));
            assert(vals.take(i + 1 as int).last() == vals[i as int]);
            assert("\n"@ =~= seq!['\n']);
            assert(out@ =~= stdin_payload_spec(vals.take(i as int)) + vals[i as int] + seq!['\n']);
        }
        i = i + 1;
    }
    proof {
        assert(vals.take(n as int) =~= vals);
    }
    out
}

/// The response body around the child's captured output: the fixed marker
/// first, then everything the child wrote.
pub fn output_body(stdout: &str) -> (r: String)
    ensures
        r@ == "Output: "@ + stdout@,
{
    "Output: ".to_owned().concat(stdout)
}

} // verus!
