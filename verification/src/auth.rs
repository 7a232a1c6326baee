//! Users and their capability grants.
//!
//! A user is loaded once at startup and never changes afterwards; every
//! authorization decision only reads this data.  A capability is a single
//! structural grant: the resource kind plus its matching rule.  There is no
//! deny entry and no priority: a user either holds a matching grant or does
//! not.

use vstd::prelude::*;
use vstd::string::StringExecFns;
use crate::utils::str_eq;

verus! {

/// A single capability grant.
pub enum Access {
    /// May read and execute the named application bundle.
    APP { name: String },
    /// May read (always) or read and write (if `can_write`) any path that
    /// starts with `path`.
    DIR { path: String, can_write: bool },
    /// May invoke the named external command; `fixed_args` are always
    /// prepended to the caller's arguments and are not caller-controlled.
    CMD { name: String, fixed_args: Vec<String> },
    /// May address the named SQL base.
    BAS { name: String },
    /// May address the named registry resource.
    REG { name: String },
    /// May run SQL script files whose path starts with `path`.
    SQL { path: String },
    /// May invoke a script resource whose path starts with `path`.
    LIZ { path: String },
}

/// An authenticated subject with its home directory and grants.
pub struct User {
    pub name: String,
    pub pass: String,
    pub home: String,
    pub lang: String,
    pub master: bool,
    pub access: Vec<Access>,
}

/// A login attempt: the credentials as presented by the caller.
pub struct TryAuth {
    pub name: String,
    pub pass: String,
}

/// A successful login: the issued bearer token and the user's language tag.
pub struct Logged {
    pub lang: String,
    pub token: String,
}

/// Whether some user in `users` carries the given name.
pub open spec fn has_user_named(users: Seq<User>, name: Seq<char>) -> bool {
    exists|i: int| 0 <= i < users.len() && users[i].name@ == name
}

/// Whether `users[i]` matches the presented credentials.
pub open spec fn credentials_match(users: Seq<User>, i: int, name: Seq<char>, pass: Seq<char>) -> bool {
    users[i].name@ == name && users[i].pass@ == pass
}

/// Finds the first user whose name and pass both equal the presented
/// credentials, as the login scan does.
pub fn authenticate(users: &Vec<User>, name: &str, pass: &str) -> (r: Option<usize>)
    ensures
        match r {
            Some(i) => {
                &&& i < users@.len()
                &&& credentials_match(users@, i as int, name@, pass@)
                &&& forall|j: int| 0 <= j < i ==> !credentials_match(users@, j, name@, pass@)
            },
            None => forall|j: int|
                0 <= j < users@.len() ==> !credentials_match(users@, j, name@, pass@),
        },
{
    let mut i: usize = 0;
    while i < users.len()
        invariant
            i <= users@.len(),
            forall|j: int| 0 <= j < i ==> !credentials_match(users@, j, name@, pass@),
        decreases users@.len() - i,
    {
        if str_eq(users[i].name.as_str(), name) && str_eq(users[i].pass.as_str(), pass) {
            return Some(i);
        }
        i = i + 1;
    }
    None
}

/// Finds the first user carrying the given name.
pub fn find_user(users: &Vec<User>, name: &str) -> (r: Option<usize>)
    ensures
        match r {
            Some(i) => i < users@.len() && users@[i as int].name@ == name@ && (forall|j: int|
                0 <= j < i ==> users@[j].name@ != name@),
            None => !has_user_named(users@, name@),
        },
{
    let mut i: usize = 0;
    while i < users.len()
        invariant
            i <= users@.len(),
            forall|j: int| 0 <= j < i ==> users@[j].name@ != name@,
        decreases users@.len() - i,
    {
        if str_eq(users[i].name.as_str(), name) {
            return Some(i);
        }
        i = i + 1;
    }
    None
}

/// Where a user's home directory ends up: an empty home falls back to
/// `./dir/` plus the user's name, and a relative home is resolved against
/// the working directory.
pub open spec fn resolved_home(u: User, working_dir: Seq<char>) -> Seq<char> {
    let base = if u.home@.len() == 0 {
        "./dir/"@ + u.name@
    } else {
        u.home@
    };
    crate::utils::resolved_path_spec(working_dir, base)
}

/// Resolves every user's home directory to an absolute path under the
/// working directory, leaving all other fields alone.
pub fn resolve_homes(users: Vec<User>, working_dir: &str) -> (r: Vec<User>)
    ensures
        r@.len() == users@.len(),
        forall|i: int|
            0 <= i < users@.len() ==> {
                &&& (#[trigger] r@[i]).name == users@[i].name
                &&& r@[i].pass == users@[i].pass
                &&& r@[i].lang == users@[i].lang
                &&& r@[i].master == users@[i].master
                &&& r@[i].access == users@[i].access
                &&& r@[i].home@ == resolved_home(users@[i], working_dir@)
            },
{
    let ghost us = users@;
    let mut rest = users;
    let mut out: Vec<User> = Vec::new();
    while rest.len() > 0
        invariant
            out@.len() + rest@.len() == us.len(),
            rest@ == us.skip(out@.len() as int),
            forall|i: int|
                0 <= i < out@.len() ==> {
                    &&& (#[trigger] out@[i]).name == us[i].name
                    &&& out@[i].pass == us[i].pass
                    &&& out@[i].lang == us[i].lang
                    &&& out@[i].master == us[i].master
                    &&& out@[i].access == us[i].access
                    &&& out@[i].home@ == resolved_home(us[i], working_dir@)
                },
        decreases rest@.len(),
    {
        proof {
            assert(rest@[0] == us[out@.len() as int]);
        }
        let u = rest.remove(0);
        let User { name, pass, home, lang, master, access } = u;
        let base = if home.as_str().is_empty() {
            "./dir/".to_owned().concat(name.as_str())
        } else {
            home
        };
        let resolved = crate::utils::path_join_if_relative(working_dir, base.as_str());
        out.push(User { name, pass, home: resolved, lang, master, access });
        proof {
            assert(rest@ =~= us.skip(out@.len() as int));
        }
    }
    proof {
        assert(out@.len() == us.len());
    }
    out
}

/// Makes sure the registry holds a master identity: when no user is named
/// `root`, one is synthesized with full rights and an empty grant list.
pub fn ensure_root(users: &mut Vec<User>)
    ensures
        has_user_named(final(users)@, "root"@),
        has_user_named(old(users)@, "root"@) ==> final(users)@ == old(users)@,
        !has_user_named(old(users)@, "root"@) ==> {
            &&& final(users)@.len() == old(users)@.len() + 1
            &&& final(users)@.subrange(0, old(users)@.len() as int) == old(users)@
            &&& final(users)@.last().name@ == "root"@
            &&& final(users)@.last().pass@ == ""@
            &&& final(users)@.last().home@ == "./dir/root"@
            &&& final(users)@.last().lang@ == ""@
            &&& final(users)@.last().master == true
            &&& final(users)@.last().access@.len() == 0
        },
{
    match find_user(users, "root") {
        Some(i) => {
            proof {
                assert(users@[i as int].name@ == "root"@);
            }
        },
        None => {
            let root = User {
                name: "root".to_owned(),
                pass: "".to_owned(),
                home: "./dir/root".to_owned(),
                lang: "".to_owned(),
                master: true,
                access: Vec::new(),
            };
            users.push(root);
            proof {
                assert(users@.subrange(0, old(users)@.len() as int) =~= old(users)@);
                assert(users@[old(users)@.len() as int].name@ == "root"@);
            }
        },
    }
}

} // verus!
