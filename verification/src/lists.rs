//! The listing bodies: what a caller is shown of the applications,
//! commands and bases.
//!
//! A master sees everything that exists; anyone else sees the names their
//! own grants mention, in grant order.  The surrounding process reads the
//! directories and hands the found names in; everything here only decides
//! and formats.

use vstd::prelude::*;
use crate::auth::{Access, User};
use crate::base::Base;
use crate::utils::str_eq;

verus! {

/// The listing body for a set of names: each name on its own line.
pub open spec fn names_body_spec(names: Seq<Seq<char>>) -> Seq<char>
    decreases names.len(),
{
    if names.len() == 0 {
        Seq::empty()
    } else {
        names_body_spec(names.drop_last()) + names.last() + seq!['\n']
    }
}

/// Whether one of the names equals `n`.
pub open spec fn names_contain(names: Seq<Seq<char>>, n: Seq<char>) -> bool {
    exists|i: int| 0 <= i < names.len() && names[i] == n
}

/// The application names a non-master user is shown: the names of its
/// application grants that actually exist, in grant order.
pub open spec fn granted_app_names(access: Seq<Access>, dirs: Seq<Seq<char>>) -> Seq<Seq<char>>
    decreases access.len(),
{
    if access.len() == 0 {
        Seq::empty()
    } else {
        granted_app_names(access.drop_last(), dirs) + (match access.last() {
            Access::APP { name } => if names_contain(dirs, name@) {
                seq![name@]
            } else {
                Seq::empty()
            },
            _ => Seq::empty(),
        })
    }
}

/// The command names a non-master user is shown, likewise.
pub open spec fn granted_cmd_names(access: Seq<Access>, dirs: Seq<Seq<char>>) -> Seq<Seq<char>>
    decreases access.len(),
{
    if access.len() == 0 {
        Seq::empty()
    } else {
        granted_cmd_names(access.drop_last(), dirs) + (match access.last() {
            Access::CMD { name, fixed_args: _ } => if names_contain(dirs, name@) {
                seq![name@]
            } else {
                Seq::empty()
            },
            _ => Seq::empty(),
        })
    }
}

/// The base names a non-master user is shown: every base its grants name,
/// whether or not it exists.
pub open spec fn granted_bas_names(access: Seq<Access>) -> Seq<Seq<char>>
    decreases access.len(),
{
    if access.len() == 0 {
        Seq::empty()
    } else {
        granted_bas_names(access.drop_last()) + (match access.last() {
            Access::BAS { name } => seq![name@],
            _ => Seq::empty(),
        })
    }
}

/// The names of all bases of the registry, in order.
pub open spec fn all_base_names(bases: Seq<Base>) -> Seq<Seq<char>>
    decreases bases.len(),
{
    if bases.len() == 0 {
        Seq::empty()
    } else {
        all_base_names(bases.drop_last()).push(bases.last().name@)
    }
}

/// Whether one of the names equals `n`.
fn contains_name(names: &Vec<String>, n: &str) -> (r: bool)
    ensures
        r == names_contain(names.deep_view(), n@),
{
    let mut i: usize = 0;
    while i < names.len()
        invariant
            i <= names@.len(),
            forall|j: int| 0 <= j < i ==> names.deep_view()[j] != n@,
        decreases names@.len() - i,
    {
        if str_eq(names[i].as_str(), n) {
            proof {
                assert(names.deep_view()[i as int] == n@);
            }
            return true;
        }
        i = i + 1;
    }
    false
}

/// Appends one name line to a listing body.
fn append_name_line(out: &mut String, name: &str)
    ensures
        final(out)@ == old(out)@ + name@ + seq!['\n'],
{
    out.append(name);
    out.append("\n");
    proof {
        reveal_strlit("\n");
        assert("\n"@ =~= seq!['\n']);
        assert(final(out)@ =~= old(out)@ + name@ + seq!['\n']);
    }
}

/// The listing body of the applications the user may see: every found
/// application for a master, the granted and found ones for anyone else.
pub fn list_apps_body(user: &User, apps_dirs: &Vec<String>) -> (r: String)
    ensures
        user.master ==> r@ == names_body_spec(apps_dirs.deep_view()),
        !user.master ==> r@ == names_body_spec(granted_app_names(user.access@, apps_dirs.deep_view())),
{
    let mut body = String::new();
    if user.master {
        let n = apps_dirs.len();
        let mut i: usize = 0;
        while i < n
            invariant
                n == apps_dirs@.len(),
                i <= n,
                body@ == names_body_spec(apps_dirs.deep_view().take(i as int)),
            decreases n - i,
        {
            let ghost names = apps_dirs.deep_view();
            append_name_line(&mut body, apps_dirs[i].as_str());
            proof {
                assert(names.take(i + 1 as int).drop_last() =~= names.take(i as int));
                assert(names.take(i + 1 as int).last() == names[i as int]);
                assert(names[i as int] == apps_dirs@[i as int]@);
            }
            i = i + 1;
        }
        proof {
            assert(apps_dirs.deep_view().take(n as int) =~= apps_dirs.deep_view());
        }
    } else {
        let ghost dirs = apps_dirs.deep_view();
        let n = user.access.len();
        let mut i: usize = 0;
        while i < n
            invariant
                n == user.access@.len(),
                i <= n,
                dirs == apps_dirs.deep_view(),
                body@ == names_body_spec(granted_app_names(user.access@.take(i as int), dirs)),
            decreases n - i,
        {
            match &user.access[i] {
                Access::APP { name } => {
                    if contains_name(apps_dirs, name.as_str()) {
                        append_name_line(&mut body, name.as_str());
                        proof {
                            lemma_granted_app_step(user.access@, dirs, i as int);
                            assert(granted_app_names(user.access@.take(i + 1 as int), dirs)
                                =~= granted_app_names(user.access@.take(i as int), dirs).push(
                                name@,
                            ));
                            lemma_names_body_push(
                                granted_app_names(user.access@.take(i as int), dirs),
                                name@,
                            );
                        }
                    } else {
                        proof {
                            lemma_granted_app_step(user.access@, dirs, i as int);
                            assert(granted_app_names(user.access@.take(i + 1 as int), dirs)
                                =~= granted_app_names(user.access@.take(i as int), dirs));
                        }
                    }
                },
                _ => {
                    proof {
                        lemma_granted_app_step(user.access@, dirs, i as int);
                        assert(granted_app_names(user.access@.take(i + 1 as int), dirs)
                            =~= granted_app_names(user.access@.take(i as int), dirs));
                    }
                },
            }
            i = i + 1;
        }
        proof {
            assert(user.access@.take(n as int) =~= user.access@);
        }
    }
    body
}

/// One step of the granted-application scan.
proof fn lemma_granted_app_step(access: Seq<Access>, dirs: Seq<Seq<char>>, i: int)
    requires
        0 <= i < access.len(),
    ensures
        granted_app_names(access.take(i + 1), dirs) == granted_app_names(access.take(i), dirs)
            + (match access[i] {
            Access::APP { name } => if names_contain(dirs, name@) {
                seq![name@]
            } else {
                Seq::empty()
            },
            _ => Seq::empty(),
        }),
{
    assert(access.take(i + 1).drop_last() =~= access.take(i));
    assert(access.take(i + 1).last() == access[i]);
}

/// Appending a name appends its line.
proof fn lemma_names_body_push(names: Seq<Seq<char>>, n: Seq<char>)
    ensures
        names_body_spec(names.push(n)) == names_body_spec(names) + n + seq!['\n'],
{
    assert(names.push(n).drop_last() =~= names);
    assert(names.push(n).last() == n);
}

/// The listing body of the commands the user may see.
pub fn list_cmds_body(user: &User, cmds_dirs: &Vec<String>) -> (r: String)
    ensures
        user.master ==> r@ == names_body_spec(cmds_dirs.deep_view()),
        !user.master ==> r@ == names_body_spec(granted_cmd_names(user.access@, cmds_dirs.deep_view())),
{
    let mut body = String::new();
    if user.master {
        let n = cmds_dirs.len();
        let mut i: usize = 0;
        while i < n
            invariant
                n == cmds_dirs@.len(),
                i <= n,
                body@ == names_body_spec(cmds_dirs.deep_view().take(i as int)),
            decreases n - i,
        {
            let ghost names = cmds_dirs.deep_view();
            append_name_line(&mut body, cmds_dirs[i].as_str());
            proof {
                assert(names.take(i + 1 as int).drop_last() =~= names.take(i as int));
                assert(names.take(i + 1 as int).last() == names[i as int]);
                assert(names[i as int] == cmds_dirs@[i as int]@);
            }
            i = i + 1;
        }
        proof {
            assert(cmds_dirs.deep_view().take(n as int) =~= cmds_dirs.deep_view());
        }
    } else {
        let ghost dirs = cmds_dirs.deep_view();
        let n = user.access.len();
        let mut i: usize = 0;
        while i < n
            invariant
                n == user.access@.len(),
                i <= n,
                dirs == cmds_dirs.deep_view(),
                body@ == names_body_spec(granted_cmd_names(user.access@.take(i as int), dirs)),
            decreases n - i,
        {
            match &user.access[i] {
                Access::CMD { name, fixed_args: _ } => {
                    if contains_name(cmds_dirs, name.as_str()) {
                        append_name_line(&mut body, name.as_str());
                        proof {
                            lemma_granted_cmd_step(user.access@, dirs, i as int);
                            assert(granted_cmd_names(user.access@.take(i + 1 as int), dirs)
                                =~= granted_cmd_names(user.access@.take(i as int), dirs).push(
                                name@,
                            ));
                            lemma_names_body_push(
                                granted_cmd_names(user.access@.take(i as int), dirs),
                                name@,
                            );
                        }
                    } else {
                        proof {
                            lemma_granted_cmd_step(user.access@, dirs, i as int);
                            assert(granted_cmd_names(user.access@.take(i + 1 as int), dirs)
                                =~= granted_cmd_names(user.access@.take(i as int), dirs));
                        }
                    }
                },
                _ => {
                    proof {
                        lemma_granted_cmd_step(user.access@, dirs, i as int);
                        assert(granted_cmd_names(user.access@.take(i + 1 as int), dirs)
                            =~= granted_cmd_names(user.access@.take(i as int), dirs));
                    }
                },
            }
            i = i + 1;
        }
        proof {
            assert(user.access@.take(n as int) =~= user.access@);
        }
    }
    body
}

/// One step of the granted-command scan.
proof fn lemma_granted_cmd_step(access: Seq<Access>, dirs: Seq<Seq<char>>, i: int)
    requires
        0 <= i < access.len(),
    ensures
        granted_cmd_names(access.take(i + 1), dirs) == granted_cmd_names(access.take(i), dirs)
            + (match access[i] {
            Access::CMD { name, fixed_args: _ } => if names_contain(dirs, name@) {
                seq![name@]
            } else {
                Seq::empty()
            },
            _ => Seq::empty(),
        }),
{
    assert(access.take(i + 1).drop_last() =~= access.take(i));
    assert(access.take(i + 1).last() == access[i]);
}

/// The listing body of the bases the user may address: every base of the
/// registry for a master, the granted names for anyone else.
pub fn list_bases_body(user: &User, bases: &Vec<Base>) -> (r: String)
    ensures
        user.master ==> r@ == names_body_spec(all_base_names(bases@)),
        !user.master ==> r@ == names_body_spec(granted_bas_names(user.access@)),
{
    let mut body = String::new();
    if user.master {
        let n = bases.len();
        let mut i: usize = 0;
        while i < n
            invariant
                n == bases@.len(),
                i <= n,
                body@ == names_body_spec(all_base_names(bases@.take(i as int))),
            decreases n - i,
        {
            append_name_line(&mut body, bases[i].name.as_str());
            proof {
                assert(bases@.take(i + 1 as int).drop_last() =~= bases@.take(i as int));
                assert(bases@.take(i + 1 as int).last() == bases@[i as int]);
                lemma_names_body_push(
                    all_base_names(bases@.take(i as int)),
                    bases@[i as int].name@,
                );
            }
            i = i + 1;
        }
        proof {
            assert(bases@.take(n as int) =~= bases@);
        }
    } else {
        let n = user.access.len();
        let mut i: usize = 0;
        while i < n
            invariant
                n == user.access@.len(),
                i <= n,
                body@ == names_body_spec(granted_bas_names(user.access@.take(i as int))),
            decreases n - i,
        {
            match &user.access[i] {
                Access::BAS { name } => {
                    append_name_line(&mut body, name.as_str());
                    proof {
                        assert(user.access@.take(i + 1 as int).drop_last() =~= user.access@.take(
                            i as int,
                        ));
                        assert(user.access@.take(i + 1 as int).last() == user.access@[i as int]);
                        assert(granted_bas_names(user.access@.take(i + 1 as int))
                            =~= granted_bas_names(user.access@.take(i as int)).push(name@));
                        lemma_names_body_push(
                            granted_bas_names(user.access@.take(i as int)),
                            name@,
                        );
                    }
                },
                _ => {
                    proof {
                        assert(user.access@.take(i + 1 as int).drop_last() =~= user.access@.take(
                            i as int,
                        ));
                        assert(user.access@.take(i + 1 as int).last() == user.access@[i as int]);
                        assert(granted_bas_names(user.access@.take(i + 1 as int))
                            =~= granted_bas_names(user.access@.take(i as int)));
                    }
                },
            }
            i = i + 1;
        }
        proof {
            assert(user.access@.take(n as int) =~= user.access@);
        }
    }
    body
}

/// The body of a directory listing: the path line first, then one line
/// per entry, directories marked `D: ` and files `F: `.
pub open spec fn dir_listing_spec(path: Seq<char>, entries: Seq<(Seq<char>, bool)>) -> Seq<char>
    decreases entries.len(),
{
    if entries.len() == 0 {
        "P: "@ + path + seq!['\n']
    } else {
        dir_listing_spec(path, entries.drop_last()) + (if entries.last().1 {
            "D: "@
        } else {
            "F: "@
        }) + entries.last().0 + seq!['\n']
    }
}

/// Writes the body of a directory listing from the found entries: each
/// pairs a name with whether it is a directory.
pub fn format_dir_listing(path: &str, entries: &Vec<(String, bool)>) -> (r: String)
    ensures
        r@ == dir_listing_spec(path@, entries.deep_view()),
{
    let ghost es = entries.deep_view();
    let mut body = String::new();
    body.append("P: ");
    body.append(path);
    body.append("\n");
    proof {
        reveal_strlit("\n");
        assert("\n"@ =~= seq!['\n']);
        assert(body@ =~= "P: "@ + path@ + seq!['\n']);
        assert(es =~~= entries.deep_view());
    }
    let n = entries.len();
    let mut i: usize = 0;
    while i < n
        invariant
            n == entries@.len(),
            es == entries.deep_view(),
            es.len() == n,
            i <= n,
            body@ == dir_listing_spec(path@, es.take(i as int)),
        decreases n - i,
    {
        proof {
            assert(es[i as int] == (entries@[i as int].0@, entries@[i as int].1));
        }
        if entries[i].1 {
            body.append("D: ");
        } else {
            body.append("F: ");
        }
        body.append(entries[i].0.as_str());
        body.append("\n");
        proof {
            reveal_strlit("\n");
            assert("\n"@ =~= seq!['\n']);
            assert(es.take(i + 1 as int).drop_last() =~= es.take(i as int));
            assert(es.take(i + 1 as int).last() == es[i as int]);
            assert(body@ =~= dir_listing_spec(path@, es.take(i as int)) + (if es[i as int].1 {
                "D: "@
            } else {
                "F: "@
            }) + es[i as int].0 + seq!['\n']);
        }
        i = i + 1;
    }
    proof {
        assert(es.take(n as int) =~= es);
    }
    body
}

} // verus!
