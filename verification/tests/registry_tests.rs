use qinpel_srv::{QinServer, SrvError};
use qinpel_srv::auth::{Access, User, authenticate, ensure_root, resolve_homes};
use qinpel_srv::base::{Base, ensure_default_bases};
use qinpel_srv::files::decode_payload;
use qinpel_srv::lists::{format_dir_listing, list_apps_body, list_bases_body, list_cmds_body};
use qinpel_srv::setup::{Head, SetupValues};
use qinpel_srv::utils::{path_join, path_join_if_relative, str_eq, str_starts_with};

fn plain_user(name: &str, master: bool) -> User {
    User {
        name: name.to_owned(),
        pass: String::new(),
        home: format!("/home/{}", name),
        lang: String::new(),
        master,
        access: Vec::new(),
    }
}

fn empty_setup() -> SetupValues {
    SetupValues {
        verbose: None,
        archive: None,
        server_name: None,
        server_host: None,
        server_port: None,
        serves_pubs: None,
        serves_apps: None,
        serves_dirs: None,
        serves_cmds: None,
        serves_regs: None,
        serves_sqls: None,
        serves_lizs: None,
        redirects: None,
    }
}

fn empty_over() -> QinServer {
    QinServer {
        verbose: None,
        archive: None,
        server_name: None,
        server_host: None,
        server_port: None,
        serves_pubs: None,
        serves_apps: None,
        serves_dirs: None,
        serves_cmds: None,
        serves_regs: None,
        serves_sqls: None,
        serves_lizs: None,
        redirects: None,
    }
}

#[test]
fn root_is_synthesized_when_absent() {
    let mut users = vec![plain_user("alice", false)];
    ensure_root(&mut users);
    assert_eq!(users.len(), 2);
    assert_eq!(users[1].name, "root");
    assert!(users[1].master);
    assert_eq!(users[1].home, "./dir/root");
    assert!(users[1].access.is_empty());
}

#[test]
fn existing_root_is_kept() {
    let mut root = plain_user("root", true);
    root.home = "/root".to_owned();
    let mut users = vec![root];
    ensure_root(&mut users);
    assert_eq!(users.len(), 1);
    assert_eq!(users[0].home, "/root");
}

#[test]
fn homes_are_resolved() {
    let mut bob = plain_user("bob", false);
    bob.home = String::new();
    let mut carol = plain_user("carol", false);
    carol.home = "data/carol".to_owned();
    let users = resolve_homes(vec![bob, carol, plain_user("dave", false)], "/srv");
    assert_eq!(users[0].home, "/srv/./dir/bob");
    assert_eq!(users[1].home, "/srv/data/carol");
    assert_eq!(users[2].home, "/home/dave");
}

#[test]
fn authentication_takes_the_first_match() {
    let mut alice = plain_user("alice", false);
    alice.pass = "pw".to_owned();
    let mut alice2 = plain_user("alice", false);
    alice2.pass = "pw".to_owned();
    let users = vec![plain_user("bob", false), alice, alice2];
    assert_eq!(authenticate(&users, "alice", "pw"), Some(1));
    assert_eq!(authenticate(&users, "alice", "nope"), None);
    assert_eq!(authenticate(&users, "eve", "pw"), None);
}

#[test]
fn default_bases_are_synthesized() {
    let users = vec![plain_user("alice", false), plain_user("bob", false)];
    let mut bases = vec![Base {
        name: "alice_default_dbs".to_owned(),
        info: "postgres://kept".to_owned(),
    }];
    ensure_default_bases(&mut bases, &users);
    assert_eq!(bases.len(), 2);
    // The configured entry keeps its own connection information.
    assert_eq!(bases[0].info, "postgres://kept");
    assert_eq!(bases[1].name, "bob_default_dbs");
    assert_eq!(bases[1].info, "sqlite:///home/bob/default_dbs.sdb");
}

#[test]
fn setup_defaults_apply() {
    let head = Head::load(empty_setup(), empty_over());
    assert_eq!(head.server_name, "QinpelSrv");
    assert_eq!(head.server_host, "localhost");
    assert_eq!(head.server_port, 5490);
    assert!(!head.verbose);
    assert!(!head.serves_sqls);
    assert!(head.redirects.is_none());
}

#[test]
fn program_options_override_the_file() {
    let mut file = empty_setup();
    file.server_port = Some(2000);
    file.verbose = Some(true);
    file.server_name = Some("FromFile".to_owned());
    let mut over = empty_over();
    over.server_port = Some(3000);
    let head = Head::load(file, over);
    assert_eq!(head.server_port, 3000);
    assert!(head.verbose);
    assert_eq!(head.server_name, "FromFile");
}

#[test]
fn redirects_merge_with_program_entries_winning() {
    let mut file = empty_setup();
    file.redirects = Some(vec![
        ("/a".to_owned(), "file-a".to_owned()),
        ("/b".to_owned(), "file-b".to_owned()),
    ]);
    let mut over = empty_over();
    over.redirects = Some(vec![("/a".to_owned(), "over-a".to_owned())]);
    let head = Head::load(file, over);
    assert_eq!(head.redirect_for("/a"), Some("over-a".to_owned()));
    assert_eq!(head.redirect_for("/b"), Some("file-b".to_owned()));
    assert_eq!(head.redirect_for("/c"), None);
}

#[test]
fn no_redirect_table_means_no_redirects() {
    let head = Head::load(empty_setup(), empty_over());
    assert_eq!(head.redirect_for("/anything"), None);
}

#[test]
fn master_lists_every_application() {
    let root = plain_user("root", true);
    let dirs = vec!["editor".to_owned(), "viewer".to_owned()];
    assert_eq!(list_apps_body(&root, &dirs), "editor\nviewer\n");
}

#[test]
fn user_lists_only_granted_and_present_applications() {
    let mut u = plain_user("u", false);
    u.access.push(Access::APP { name: "editor".to_owned() });
    u.access.push(Access::APP { name: "missing".to_owned() });
    u.access.push(Access::DIR { path: "/".to_owned(), can_write: false });
    let dirs = vec!["viewer".to_owned(), "editor".to_owned()];
    assert_eq!(list_apps_body(&u, &dirs), "editor\n");
}

#[test]
fn user_lists_only_granted_commands() {
    let mut u = plain_user("u", false);
    u.access.push(Access::CMD { name: "backup".to_owned(), fixed_args: Vec::new() });
    let dirs = vec!["backup".to_owned(), "other".to_owned()];
    assert_eq!(list_cmds_body(&u, &dirs), "backup\n");
}

#[test]
fn base_listing_by_rights() {
    let bases = vec![
        Base { name: "sales".to_owned(), info: String::new() },
        Base { name: "billing".to_owned(), info: String::new() },
    ];
    let root = plain_user("root", true);
    assert_eq!(list_bases_body(&root, &bases), "sales\nbilling\n");
    let mut u = plain_user("u", false);
    u.access.push(Access::BAS { name: "billing".to_owned() });
    assert_eq!(list_bases_body(&u, &bases), "billing\n");
}

#[test]
fn directory_listing_format() {
    let entries = vec![("notes.txt".to_owned(), false), ("photos".to_owned(), true)];
    assert_eq!(format_dir_listing("/home/u", &entries), "P: /home/u\nF: notes.txt\nD: photos\n");
}

#[test]
fn plain_payload_is_its_own_bytes() {
    assert_eq!(decode_payload(false, "hi").unwrap(), b"hi".to_vec());
}

#[test]
fn base64_payload_is_decoded() {
    assert_eq!(decode_payload(true, "aGk=").unwrap(), b"hi".to_vec());
}

#[test]
fn malformed_base64_is_a_bad_request() {
    let bad = decode_payload(true, "!!!");
    assert!(matches!(bad, Err(SrvError::BadRequest(_))));
}

#[test]
fn string_helpers() {
    assert!(str_eq("héllo", "héllo"));
    assert!(!str_eq("a", "ab"));
    assert!(str_starts_with("/a/b/c", "/a/b"));
    assert!(!str_starts_with("/a", "/a/b"));
    assert_eq!(path_join("/a", "b"), "/a/b");
    assert_eq!(path_join("/a/", "b"), "/a/b");
    assert_eq!(path_join_if_relative("/base", "/abs"), "/abs");
    assert_eq!(path_join_if_relative("/base", "rel"), "/base/rel");
}

#[test]
fn default_base_names_match() {
    let u = plain_user("alice", false);
    assert_eq!(Base::get_default_base_name(&u), "alice_default_dbs");
    assert_eq!(Base::get_default_bas_name(&u), "alice_default_dbs");
    assert_eq!(Base::get_default_dbs_info(&u), "sqlite:///home/alice/default_dbs.sdb");
}

#[test]
fn error_messages_are_reachable() {
    let e = SrvError::Forbidden("denied".to_owned());
    assert_eq!(e.message(), "denied");
}
