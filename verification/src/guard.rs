//! The capability guard: pure decision functions that evaluate a user's
//! grant list against a requested resource and operation.
//!
//! Every check follows the same shape: a master identity is allowed
//! unconditionally; otherwise the grant list is scanned in order for a
//! structural match, and the absence of a match is a denial.  Directory
//! grants match by plain character prefix of the requested path, so a grant
//! on `/a/b` also covers `/a/bc`; command and application grants match their
//! name exactly.  A denial is always reported with the same message,
//! whatever grant was missing.

use vstd::prelude::*;
use crate::SrvError;
use crate::auth::{Access, User, find_user, has_user_named};
use crate::session::Tokens;
use crate::base::default_base_name_spec;
use crate::utils::{str_eq, str_starts_with};

verus! {

/// Whether the single grant `a` allows reading a path: any directory grant
/// whose prefix covers the path does, whether or not it allows writing.
pub open spec fn grants_dir_read(a: Access, path: Seq<char>) -> bool {
    match a {
        Access::DIR { path: p, can_write: _ } => p@.is_prefix_of(path),
        _ => false,
    }
}

/// Whether the single grant `a` allows writing a path.
pub open spec fn grants_dir_write(a: Access, path: Seq<char>) -> bool {
    match a {
        Access::DIR { path: p, can_write } => can_write && p@.is_prefix_of(path),
        _ => false,
    }
}

/// Whether the user holds a directory grant covering `path` for reading.
pub open spec fn dir_read_allowed(u: User, path: Seq<char>) -> bool {
    exists|i: int| 0 <= i < u.access@.len() && grants_dir_read(#[trigger] u.access@[i], path)
}

/// Whether the user holds a directory grant covering `path` for writing.
pub open spec fn dir_write_allowed(u: User, path: Seq<char>) -> bool {
    exists|i: int| 0 <= i < u.access@.len() && grants_dir_write(#[trigger] u.access@[i], path)
}

/// Whether the single grant `a` allows the named application.
pub open spec fn grants_app(a: Access, name: Seq<char>) -> bool {
    match a {
        Access::APP { name: n } => n@ == name,
        _ => false,
    }
}

/// Whether the single grant `a` allows the named command.
pub open spec fn grants_cmd(a: Access, name: Seq<char>) -> bool {
    match a {
        Access::CMD { name: n, fixed_args: _ } => n@ == name,
        _ => false,
    }
}

/// Whether the single grant `a` allows the named base.
pub open spec fn grants_bas(a: Access, name: Seq<char>) -> bool {
    match a {
        Access::BAS { name: n } => n@ == name,
        _ => false,
    }
}

/// Whether the single grant `a` covers the SQL script path.
pub open spec fn grants_sql(a: Access, path: Seq<char>) -> bool {
    match a {
        Access::SQL { path: p } => p@.is_prefix_of(path),
        _ => false,
    }
}

/// Whether the single grant `a` covers the script path.
pub open spec fn grants_liz(a: Access, path: Seq<char>) -> bool {
    match a {
        Access::LIZ { path: p } => p@.is_prefix_of(path),
        _ => false,
    }
}

/// Whether the user holds an application grant for exactly this name.
pub open spec fn app_allowed(u: User, name: Seq<char>) -> bool {
    exists|i: int| 0 <= i < u.access@.len() && grants_app(#[trigger] u.access@[i], name)
}

/// Whether the user holds a command grant for exactly this name.
pub open spec fn cmd_allowed(u: User, name: Seq<char>) -> bool {
    exists|i: int| 0 <= i < u.access@.len() && grants_cmd(#[trigger] u.access@[i], name)
}

/// Whether the user holds a base grant for exactly this base name.
pub open spec fn bas_allowed(u: User, name: Seq<char>) -> bool {
    exists|i: int| 0 <= i < u.access@.len() && grants_bas(#[trigger] u.access@[i], name)
}

/// Whether the user holds a SQL grant whose prefix covers the script path.
pub open spec fn sql_allowed(u: User, path: Seq<char>) -> bool {
    exists|i: int| 0 <= i < u.access@.len() && grants_sql(#[trigger] u.access@[i], path)
}

/// Whether the user holds a script grant whose prefix covers the path.
pub open spec fn liz_allowed(u: User, path: Seq<char>) -> bool {
    exists|i: int| 0 <= i < u.access@.len() && grants_liz(#[trigger] u.access@[i], path)
}

/// Scans the grant list for a directory grant that covers `check_path` for
/// reading.
pub fn check_dir_read(check_path: &str, for_user: &User) -> (r: bool)
    ensures
        r == dir_read_allowed(*for_user, check_path@),
{
    let n = for_user.access.len();
    let mut i: usize = 0;
    while i < n
        invariant
            n == for_user.access@.len(),
            i <= n,
            forall|j: int| 0 <= j < i ==> !grants_dir_read(#[trigger] for_user.access@[j], check_path@),
        decreases n - i,
    {
        match &for_user.access[i] {
            Access::DIR { path, can_write: _ } => {
                if str_starts_with(check_path, path.as_str()) {
                    return true;
                }
            },
            _ => {},
        }
        i = i + 1;
    }
    false
}

/// Scans the grant list for a directory grant that covers `check_path` for
/// writing.
pub fn check_dir_write(check_path: &str, for_user: &User) -> (r: bool)
    ensures
        r == dir_write_allowed(*for_user, check_path@),
{
    let n = for_user.access.len();
    let mut i: usize = 0;
    while i < n
        invariant
            n == for_user.access@.len(),
            i <= n,
            forall|j: int| 0 <= j < i ==> !grants_dir_write(#[trigger] for_user.access@[j], check_path@),
        decreases n - i,
    {
        match &for_user.access[i] {
            Access::DIR { path, can_write } => {
                if *can_write && str_starts_with(check_path, path.as_str()) {
                    return true;
                }
            },
            _ => {},
        }
        i = i + 1;
    }
    false
}

/// What a directory-class request is allowed to do: each resource name maps
/// the one or two paths of the request onto the read and write rules.  The
/// two paths of a copy or move are matched independently: a grant covering
/// the source says nothing about the destination.
pub open spec fn dir_resource_allowed(
    u: User,
    path: Seq<char>,
    dest: Option<Seq<char>>,
    resource: Seq<char>,
) -> bool {
    if u.master {
        true
    } else if resource == "/dir/list"@ || resource == "/file/read"@ {
        dir_read_allowed(u, path)
    } else if resource == "/dir/new"@ || resource == "/dir/del"@ || resource == "/file/write"@
        || resource == "/file/append"@ || resource == "/file/upload"@ || resource == "/file/del"@ {
        dir_write_allowed(u, path)
    } else if resource == "/dir/copy"@ || resource == "/file/copy"@ {
        dest matches Some(d) && dir_read_allowed(u, path) && dir_write_allowed(u, d)
    } else if resource == "/dir/move"@ || resource == "/file/move"@ {
        dest matches Some(d) && dir_write_allowed(u, path) && dir_write_allowed(u, d)
    } else {
        false
    }
}

/// The view of an optional destination path.
pub open spec fn dest_view(dest: Option<&str>) -> Option<Seq<char>> {
    match dest {
        Some(d) => Some(d@),
        None => None,
    }
}

fn check_dir_resource(path_ref: &str, path_dest: &Option<&str>, resource: &str, for_user: &User) -> (r:
    bool)
    ensures
        r == dir_resource_allowed(*for_user, path_ref@, dest_view(*path_dest), resource@),
{
    if for_user.master {
        return true;
    }
    if str_eq(resource, "/dir/list") || str_eq(resource, "/file/read") {
        check_dir_read(path_ref, for_user)
    } else if str_eq(resource, "/dir/new") || str_eq(resource, "/dir/del") || str_eq(
        resource,
        "/file/write",
    ) || str_eq(resource, "/file/append") || str_eq(resource, "/file/upload") || str_eq(
        resource,
        "/file/del",
    ) {
        check_dir_write(path_ref, for_user)
    } else if str_eq(resource, "/dir/copy") || str_eq(resource, "/file/copy") {
        match path_dest {
            Some(dest) => check_dir_read(path_ref, for_user) && check_dir_write(dest, for_user),
            None => false,
        }
    } else if str_eq(resource, "/dir/move") || str_eq(resource, "/file/move") {
        match path_dest {
            Some(dest) => check_dir_write(path_ref, for_user) && check_dir_write(dest, for_user),
            None => false,
        }
    } else {
        false
    }
}

/// Decides a directory-class request: the path (and destination, for the
/// two-path operations) must be covered by the user's directory grants as
/// the resource demands, unless the user is a master.
pub fn check_dir_access(
    path_ref: &str,
    path_dest: Option<&str>,
    resource: &str,
    for_user: &User,
) -> (r: Result<(), SrvError>)
    ensures
        r.is_ok() == dir_resource_allowed(*for_user, path_ref@, dest_view(path_dest), resource@),
        r matches Err(e) ==> e matches SrvError::Forbidden(_),
{
    if check_dir_resource(path_ref, &path_dest, resource, for_user) {
        Ok(())
    } else {
        Err(SrvError::Forbidden("You do not have access to call this resource".to_owned()))
    }
}

/// Decides whether the user may touch the named application bundle.
pub fn check_app_access(app_name: &str, for_user: &User) -> (r: Result<(), SrvError>)
    ensures
        r.is_ok() == (for_user.master || app_allowed(*for_user, app_name@)),
        r matches Err(e) ==> e matches SrvError::Forbidden(_),
{
    if for_user.master {
        return Ok(());
    }
    let n = for_user.access.len();
    let mut i: usize = 0;
    while i < n
        invariant
            n == for_user.access@.len(),
            i <= n,
            forall|j: int| 0 <= j < i ==> !grants_app(#[trigger] for_user.access@[j], app_name@),
        decreases n - i,
    {
        match &for_user.access[i] {
            Access::APP { name } => {
                if str_eq(app_name, name.as_str()) {
                    return Ok(());
                }
            },
            _ => {},
        }
        i = i + 1;
    }
    Err(SrvError::Forbidden("You do not have access to call this resource".to_owned()))
}

/// Decides whether the user may invoke the named external command.  The
/// match is on the exact command name; there is no prefix rule here.
pub fn check_cmd_access(cmd_name: &str, for_user: &User) -> (r: Result<(), SrvError>)
    ensures
        r.is_ok() == (for_user.master || cmd_allowed(*for_user, cmd_name@)),
        r matches Err(e) ==> e matches SrvError::Forbidden(_),
{
    if for_user.master {
        return Ok(());
    }
    let n = for_user.access.len();
    let mut i: usize = 0;
    while i < n
        invariant
            n == for_user.access@.len(),
            i <= n,
            forall|j: int| 0 <= j < i ==> !grants_cmd(#[trigger] for_user.access@[j], cmd_name@),
        decreases n - i,
    {
        match &for_user.access[i] {
            Access::CMD { name, fixed_args: _ } => {
                if str_eq(cmd_name, name.as_str()) {
                    return Ok(());
                }
            },
            _ => {},
        }
        i = i + 1;
    }
    Err(SrvError::Forbidden("You do not have access to call this resource".to_owned()))
}

/// Whether a SQL request is allowed: masters and requests against the
/// user's own synthesized default base pass outright; anyone else needs a
/// base grant naming the base and, independently, a SQL grant whose prefix
/// covers the script path.
pub open spec fn sql_access_allowed(
    u: User,
    base_name: Seq<char>,
    sql_path: Seq<char>,
) -> bool {
    u.master || base_name == default_base_name_spec(u) || (bas_allowed(u, base_name)
        && sql_allowed(u, sql_path))
}

/// Decides a SQL request against a named base and a script path.
pub fn check_sql_access(base_name: &str, sql_path: &str, for_user: &User) -> (r: Result<
    (),
    SrvError,
>)
    ensures
        r.is_ok() == sql_access_allowed(*for_user, base_name@, sql_path@),
        r matches Err(e) ==> e matches SrvError::Forbidden(_),
{
    let default_name = crate::base::Base::get_default_bas_name(for_user);
    if for_user.master || str_eq(base_name, default_name.as_str()) {
        return Ok(());
    }
    let n = for_user.access.len();
    let mut has_dbs_access = false;
    let mut i: usize = 0;
    while i < n
        invariant
            n == for_user.access@.len(),
            i <= n,
            has_dbs_access ==> bas_allowed(*for_user, base_name@),
            !has_dbs_access ==> forall|j: int|
                0 <= j < i ==> !grants_bas(#[trigger] for_user.access@[j], base_name@),
        decreases n - i,
    {
        match &for_user.access[i] {
            Access::BAS { name } => {
                if str_eq(base_name, name.as_str()) {
                    has_dbs_access = true;
                }
            },
            _ => {},
        }
        i = i + 1;
    }
    if !has_dbs_access {
        return Err(SrvError::Forbidden(
            "You do not have access to call this resource".to_owned(),
        ));
    }
    let mut has_sql_access = false;
    let mut i: usize = 0;
    while i < n
        invariant
            n == for_user.access@.len(),
            i <= n,
            has_sql_access ==> sql_allowed(*for_user, sql_path@),
            !has_sql_access ==> forall|j: int|
                0 <= j < i ==> !grants_sql(#[trigger] for_user.access@[j], sql_path@),
        decreases n - i,
    {
        match &for_user.access[i] {
            Access::SQL { path } => {
                if str_starts_with(sql_path, path.as_str()) {
                    has_sql_access = true;
                }
            },
            _ => {},
        }
        i = i + 1;
    }
    if !has_sql_access {
        return Err(SrvError::Forbidden(
            "You do not have access to call this resource".to_owned(),
        ));
    }
    Ok(())
}

/// Decides whether the user may run the script at `liz_path`.
pub fn check_liz_access(liz_path: &str, for_user: &User) -> (r: Result<(), SrvError>)
    ensures
        r.is_ok() == (for_user.master || liz_allowed(*for_user, liz_path@)),
        r matches Err(e) ==> e matches SrvError::Forbidden(_),
{
    if for_user.master {
        return Ok(());
    }
    let n = for_user.access.len();
    let mut i: usize = 0;
    while i < n
        invariant
            n == for_user.access@.len(),
            i <= n,
            forall|j: int| 0 <= j < i ==> !grants_liz(#[trigger] for_user.access@[j], liz_path@),
        decreases n - i,
    {
        match &for_user.access[i] {
            Access::LIZ { path } => {
                if str_starts_with(liz_path, path.as_str()) {
                    return Ok(());
                }
            },
            _ => {},
        }
        i = i + 1;
    }
    Err(SrvError::Forbidden("You do not have access to call this resource".to_owned()))
}

/// Whether the bearer token names a live session owned by some user of
/// the registry.
pub open spec fn token_user_found(
    users: Seq<User>,
    sessions: Map<Seq<char>, (Seq<char>, u64)>,
    token: Seq<char>,
) -> bool {
    token.len() > 0 && sessions.contains_key(token) && has_user_named(users, sessions[token].0)
}

/// Resolves a bearer token to the first registry user owning its session:
/// an empty token, an unknown token, or a session whose user has left the
/// registry all yield nothing.
pub fn get_token_user(users: &Vec<User>, tokens: &Tokens, token: &str) -> (r: Option<usize>)
    requires
        tokens.wf(),
    ensures
        match r {
            Some(i) => {
                &&& token_user_found(users@, tokens@, token@)
                &&& i < users@.len()
                &&& users@[i as int].name@ == tokens@[token@].0
                &&& forall|j: int| 0 <= j < i ==> users@[j].name@ != tokens@[token@].0
            },
            None => !token_user_found(users@, tokens@, token@),
        },
{
    if token.unicode_len() == 0 {
        return None;
    }
    match tokens.resolve(token) {
        Some(auth) => find_user(users, auth.user.as_str()),
        None => None,
    }
}

/// The identity behind a request: a call from the local host is served as
/// the `root` user when one exists; anyone else is whoever the bearer
/// token resolves to.
pub fn get_user(users: &Vec<User>, tokens: &Tokens, from_localhost: bool, token: &str) -> (r:
    Option<usize>)
    requires
        tokens.wf(),
    ensures
        from_localhost && has_user_named(users@, "root"@) ==> (r matches Some(i) && i
            < users@.len() && users@[i as int].name@ == "root"@),
        !(from_localhost && has_user_named(users@, "root"@)) ==> match r {
            Some(i) => {
                &&& token_user_found(users@, tokens@, token@)
                &&& i < users@.len()
                &&& users@[i as int].name@ == tokens@[token@].0
            },
            None => !token_user_found(users@, tokens@, token@),
        },
{
    if from_localhost {
        match find_user(users, "root") {
            Some(i) => {
                return Some(i);
            },
            None => {},
        }
    }
    get_token_user(users, tokens, token)
}

/// The identity behind a request, or the uniform denial when there is
/// none.
pub fn get_user_or_err(users: &Vec<User>, tokens: &Tokens, from_localhost: bool, token: &str) -> (r:
    Result<usize, SrvError>)
    requires
        tokens.wf(),
    ensures
        from_localhost && has_user_named(users@, "root"@) ==> (r matches Ok(i) && i < users@.len()
            && users@[i as int].name@ == "root"@),
        !(from_localhost && has_user_named(users@, "root"@)) ==> match r {
            Ok(i) => {
                &&& token_user_found(users@, tokens@, token@)
                &&& i < users@.len()
                &&& users@[i as int].name@ == tokens@[token@].0
            },
            Err(e) => !token_user_found(users@, tokens@, token@) && e matches SrvError::Forbidden(
                _,
            ),
        },
{
    match get_user(users, tokens, from_localhost, token) {
        Some(i) => Ok(i),
        None => Err(
            SrvError::Forbidden("You do not have access to call this resource".to_owned()),
        ),
    }
}

/// Two-path independence: without a directory grant that covers the
/// destination for writing, a copy is denied to a non-master user, however
/// completely its source may be covered for reading.
pub proof fn lemma_copy_needs_destination_write(u: User, path: Seq<char>, dest: Seq<char>)
    requires
        !u.master,
        !dir_write_allowed(u, dest),
    ensures
        !dir_resource_allowed(u, path, Some(dest), "/dir/copy"@),
        !dir_resource_allowed(u, path, Some(dest), "/file/copy"@),
{
    reveal_strlit("/dir/copy");
    reveal_strlit("/file/copy");
    reveal_strlit("/dir/list");
    reveal_strlit("/file/read");
    reveal_strlit("/dir/new");
    reveal_strlit("/dir/del");
    reveal_strlit("/file/write");
    reveal_strlit("/file/append");
    reveal_strlit("/file/upload");
    reveal_strlit("/file/del");
    assert("/dir/copy"@.len() == 9);
    assert("/file/copy"@.len() == 10);
    assert("/dir/list"@.len() == 9);
    assert("/file/read"@.len() == 10);
    assert("/dir/new"@.len() == 8);
    assert("/dir/del"@.len() == 8);
    assert("/file/write"@.len() == 11);
    assert("/file/append"@.len() == 12);
    assert("/file/upload"@.len() == 12);
    assert("/file/del"@.len() == 9);
    assert("/dir/copy"@[5] == 'c' && "/dir/list"@[5] == 'l');
    assert("/dir/copy"@[1] == 'd' && "/file/del"@[1] == 'f');
    assert("/file/copy"@[6] == 'c' && "/file/read"@[6] == 'r');
}

/// A grant that allows writing a path also allows reading it: the read rule
/// only inspects the grant's path prefix, never its write flag.
pub proof fn lemma_write_implies_read(u: User, path: Seq<char>)
    requires
        dir_write_allowed(u, path),
    ensures
        dir_read_allowed(u, path),
{
    let i = choose|i: int|
        0 <= i < u.access@.len() && grants_dir_write(#[trigger] u.access@[i], path);
    assert(grants_dir_read(u.access@[i], path));
}

} // verus!
