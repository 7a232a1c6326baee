use qinpel_srv::auth::{Access, User};
use qinpel_srv::comm::ArgsInputs;
use qinpel_srv::precept::{build_cmd_args, output_body, resolve_cmd_paths, stdin_payload};

fn cmd_user(grants: Vec<Access>) -> User {
    User {
        name: "u".to_owned(),
        pass: String::new(),
        home: "/home/u".to_owned(),
        lang: String::new(),
        master: false,
        access: grants,
    }
}

#[test]
fn fixed_args_come_first() {
    let user = cmd_user(vec![Access::CMD {
        name: "tool".to_owned(),
        fixed_args: vec!["--safe".to_owned()],
    }]);
    let inputs = ArgsInputs { args: Some(vec!["--unsafe".to_owned()]), inputs: None };
    let argv = build_cmd_args("tool", &inputs, &user);
    assert_eq!(argv, vec!["--safe".to_owned(), "--unsafe".to_owned()]);
}

#[test]
fn fixed_args_of_every_matching_grant_in_order() {
    let user = cmd_user(vec![
        Access::CMD { name: "tool".to_owned(), fixed_args: vec!["-a".to_owned()] },
        Access::CMD { name: "other".to_owned(), fixed_args: vec!["-x".to_owned()] },
        Access::DIR { path: "/".to_owned(), can_write: true },
        Access::CMD { name: "tool".to_owned(), fixed_args: vec!["-b".to_owned(), "-c".to_owned()] },
    ]);
    let inputs = ArgsInputs { args: Some(vec!["user-arg".to_owned()]), inputs: None };
    let argv = build_cmd_args("tool", &inputs, &user);
    assert_eq!(
        argv,
        vec!["-a".to_owned(), "-b".to_owned(), "-c".to_owned(), "user-arg".to_owned()]
    );
}

#[test]
fn no_caller_args_leaves_the_fixed_prefix() {
    let user = cmd_user(vec![Access::CMD {
        name: "tool".to_owned(),
        fixed_args: vec!["--safe".to_owned()],
    }]);
    let inputs = ArgsInputs { args: None, inputs: None };
    assert_eq!(build_cmd_args("tool", &inputs, &user), vec!["--safe".to_owned()]);
}

#[test]
fn no_grant_means_only_caller_args() {
    let user = cmd_user(Vec::new());
    let inputs = ArgsInputs { args: Some(vec!["-v".to_owned()]), inputs: None };
    assert_eq!(build_cmd_args("tool", &inputs, &user), vec!["-v".to_owned()]);
}

#[test]
fn command_found_in_working_dir() {
    let (dir, exec) = resolve_cmd_paths("/srv", "tool", ".exe", true);
    assert_eq!(dir, "/srv");
    assert_eq!(exec, "/srv/tool.exe");
}

#[test]
fn command_found_in_run_cmd_fallback() {
    let (dir, exec) = resolve_cmd_paths("/srv", "tool", "", false);
    assert_eq!(dir, "/srv/run/cmd/tool");
    assert_eq!(exec, "/srv/run/cmd/tool/tool");
}

#[test]
fn stdin_lines_are_newline_terminated() {
    let lines = vec!["first".to_owned(), "second".to_owned()];
    assert_eq!(stdin_payload(&lines), "first\nsecond\n");
    let none: Vec<String> = Vec::new();
    assert_eq!(stdin_payload(&none), "");
}

#[test]
fn output_is_marked() {
    assert_eq!(output_body("hello"), "Output: hello");
    assert_eq!(output_body(""), "Output: ");
}
