use qinpel_srv::SrvError;
use qinpel_srv::auth::{Access, User};
use qinpel_srv::guard::{
    check_app_access, check_cmd_access, check_dir_access, check_dir_read, check_dir_write,
    check_liz_access, check_sql_access, get_token_user, get_user, get_user_or_err,
};
use qinpel_srv::session::Tokens;

fn user_with(name: &str, master: bool, access: Vec<Access>) -> User {
    User {
        name: name.to_owned(),
        pass: String::new(),
        home: format!("/home/{}", name),
        lang: String::new(),
        master,
        access,
    }
}

#[test]
fn dir_prefix_boundary() {
    let user = user_with(
        "u",
        false,
        vec![Access::DIR { path: "/a/b".to_owned(), can_write: false }],
    );
    assert!(check_dir_read("/a/b", &user));
    assert!(check_dir_read("/a/b/c", &user));
    // The match is a plain character prefix, so the grant also covers a
    // sibling whose name merely starts with the granted text.
    assert!(check_dir_read("/a/bc", &user));
    assert!(!check_dir_read("/a", &user));
    assert!(!check_dir_read("/z/a/b", &user));
    assert!(!check_dir_write("/a/b", &user));
    assert!(!check_dir_write("/a/b/c", &user));
}

#[test]
fn write_implies_read() {
    let user = user_with(
        "alice",
        false,
        vec![Access::DIR { path: "/home/alice".to_owned(), can_write: true }],
    );
    assert!(check_dir_write("/home/alice/notes.txt", &user));
    assert!(check_dir_read("/home/alice/notes.txt", &user));
}

#[test]
fn copy_needs_destination_write() {
    let user = user_with(
        "u",
        false,
        vec![Access::DIR { path: "/a".to_owned(), can_write: false }],
    );
    // The source is fully readable, yet the copy is denied: the
    // destination needs its own write grant.
    let denied = check_dir_access("/a/file", Some("/z/file"), "/dir/copy", &user);
    assert!(matches!(denied, Err(SrvError::Forbidden(_))));
    let denied = check_dir_access("/a/file", Some("/z/file"), "/file/copy", &user);
    assert!(denied.is_err());
}

#[test]
fn copy_with_both_grants_passes() {
    let user = user_with(
        "u",
        false,
        vec![
            Access::DIR { path: "/a".to_owned(), can_write: false },
            Access::DIR { path: "/z".to_owned(), can_write: true },
        ],
    );
    assert!(check_dir_access("/a/file", Some("/z/file"), "/dir/copy", &user).is_ok());
    // A move needs write on both sides; /a is read-only.
    assert!(check_dir_access("/a/file", Some("/z/file"), "/dir/move", &user).is_err());
}

#[test]
fn two_path_resource_without_destination_is_denied() {
    let user = user_with(
        "u",
        false,
        vec![Access::DIR { path: "/".to_owned(), can_write: true }],
    );
    assert!(check_dir_access("/a", None, "/dir/copy", &user).is_err());
    assert!(check_dir_access("/a", None, "/file/move", &user).is_err());
}

#[test]
fn unknown_resource_is_denied() {
    let user = user_with(
        "u",
        false,
        vec![Access::DIR { path: "/".to_owned(), can_write: true }],
    );
    assert!(check_dir_access("/a", None, "/dir/rename", &user).is_err());
}

#[test]
fn master_bypasses_every_check() {
    let root = user_with("root", true, Vec::new());
    assert!(check_dir_access("/etc/passwd", None, "/file/write", &root).is_ok());
    assert!(check_app_access("anything", &root).is_ok());
    assert!(check_cmd_access("anything", &root).is_ok());
    assert!(check_sql_access("anybase", "/any.sql", &root).is_ok());
    assert!(check_liz_access("/any.liz", &root).is_ok());
}

#[test]
fn end_to_end_alice_home() {
    let alice = user_with(
        "alice",
        false,
        vec![Access::DIR { path: "/home/alice".to_owned(), can_write: true }],
    );
    assert!(check_dir_access("/home/alice/notes.txt", None, "/file/write", &alice).is_ok());
    assert!(check_dir_access("/etc/passwd", None, "/file/write", &alice).is_err());
    assert!(check_dir_access("/home/alice/notes.txt", None, "/file/read", &alice).is_ok());
}

#[test]
fn cmd_matches_name_exactly() {
    let user = user_with(
        "u",
        false,
        vec![Access::CMD { name: "backup".to_owned(), fixed_args: Vec::new() }],
    );
    assert!(check_cmd_access("backup", &user).is_ok());
    assert!(check_cmd_access("backup2", &user).is_err());
    assert!(check_cmd_access("back", &user).is_err());
}

#[test]
fn app_access_needs_the_grant() {
    let user = user_with("u", false, vec![Access::APP { name: "editor".to_owned() }]);
    assert!(check_app_access("editor", &user).is_ok());
    assert!(matches!(check_app_access("shell", &user), Err(SrvError::Forbidden(_))));
}

#[test]
fn sql_needs_base_and_path_grants() {
    let user = user_with(
        "u",
        false,
        vec![
            Access::BAS { name: "sales".to_owned() },
            Access::SQL { path: "/sql/reports".to_owned() },
        ],
    );
    assert!(check_sql_access("sales", "/sql/reports/daily.sql", &user).is_ok());
    // The base grant alone is not enough for a script elsewhere.
    assert!(check_sql_access("sales", "/sql/admin/drop.sql", &user).is_err());
    // The path grant alone is not enough for another base.
    assert!(check_sql_access("billing", "/sql/reports/daily.sql", &user).is_err());
}

#[test]
fn own_default_base_is_always_allowed() {
    let user = user_with("u", false, Vec::new());
    assert!(check_sql_access("u_default_dbs", "/anywhere.sql", &user).is_ok());
    assert!(check_sql_access("v_default_dbs", "/anywhere.sql", &user).is_err());
}

#[test]
fn liz_access_is_a_path_prefix() {
    let user = user_with("u", false, vec![Access::LIZ { path: "/scripts".to_owned() }]);
    assert!(check_liz_access("/scripts/run.liz", &user).is_ok());
    assert!(check_liz_access("/other/run.liz", &user).is_err());
}

#[test]
fn localhost_is_served_as_root() {
    let users = vec![user_with("alice", false, Vec::new()), user_with("root", true, Vec::new())];
    let tokens = Tokens::new(0);
    let idx = get_user(&users, &tokens, true, "").unwrap();
    assert_eq!(users[idx].name, "root");
}

#[test]
fn token_user_resolution() {
    let users = vec![user_with("alice", false, Vec::new())];
    let mut tokens = Tokens::new(0);
    tokens.insert("tok".to_owned(), "alice".to_owned(), 0);
    assert_eq!(get_token_user(&users, &tokens, "tok"), Some(0));
    assert_eq!(get_token_user(&users, &tokens, ""), None);
    assert_eq!(get_token_user(&users, &tokens, "other"), None);
    // A session whose user has left the registry resolves to nothing.
    tokens.insert("ghostly".to_owned(), "gone".to_owned(), 0);
    assert_eq!(get_token_user(&users, &tokens, "ghostly"), None);
}

#[test]
fn missing_identity_is_forbidden() {
    let users = vec![user_with("alice", false, Vec::new())];
    let tokens = Tokens::new(0);
    let denied = get_user_or_err(&users, &tokens, false, "");
    assert!(matches!(denied, Err(SrvError::Forbidden(_))));
}
