use qinpel_srv::SrvError;
use qinpel_srv::auth::User;
use qinpel_srv::base::Base;
use qinpel_srv::persist::{get_base, resolve_base_name, substitute_params};

fn plain_user(name: &str) -> User {
    User {
        name: name.to_owned(),
        pass: String::new(),
        home: format!("/home/{}", name),
        lang: String::new(),
        master: false,
        access: Vec::new(),
    }
}

fn subst(source: &str, params: &[&str]) -> String {
    let owned: Vec<String> = params.iter().map(|p| (*p).to_owned()).collect();
    substitute_params(source, &owned)
}

#[test]
fn single_placeholder() {
    assert_eq!(subst("select $1", &["42"]), "select 42");
}

#[test]
fn placeholders_in_any_order() {
    assert_eq!(subst("$2 and $1", &["a", "b"]), "b and a");
    assert_eq!(subst("$2$1", &["a", "b"]), "ba");
}

#[test]
fn placeholder_followed_by_text() {
    assert_eq!(subst("$1x", &["a"]), "ax");
}

#[test]
fn zero_is_never_a_placeholder() {
    assert_eq!(subst("$0", &["a"]), "$0");
}

#[test]
fn leading_zero_is_not_substituted() {
    assert_eq!(subst("$01", &["a"]), "$01");
}

#[test]
fn out_of_range_index_is_kept() {
    assert_eq!(subst("$3", &["a", "b"]), "$3");
    // A two-digit run is one placeholder, not a one-digit one and a digit.
    assert_eq!(subst("$12", &["a", "b"]), "$12");
}

#[test]
fn enormous_index_is_kept() {
    assert_eq!(
        subst("$99999999999999999999999999", &["a"]),
        "$99999999999999999999999999"
    );
}

#[test]
fn lone_dollar_is_kept() {
    assert_eq!(subst("$", &["a"]), "$");
    assert_eq!(subst("cost $$1", &["a"]), "cost $a");
}

#[test]
fn no_params_changes_nothing() {
    assert_eq!(subst("select $1", &[]), "select $1");
}

#[test]
fn substitution_is_purely_textual() {
    // Substitution happens once over the raw text, quoted regions
    // included.
    assert_eq!(subst("select '$1'", &["x"]), "select 'x'");
}

#[test]
fn default_base_is_redirected_to_the_user() {
    let user = plain_user("alice");
    assert_eq!(resolve_base_name("default_dbs", &user), "alice_default_dbs");
    assert_eq!(resolve_base_name("sales", &user), "sales");
}

#[test]
fn known_base_is_found() {
    let bases = vec![
        Base { name: "sales".to_owned(), info: "sqlite:///tmp/sales.sdb".to_owned() },
        Base { name: "billing".to_owned(), info: "postgres://db/billing".to_owned() },
    ];
    assert_eq!(get_base(&bases, "billing").unwrap(), 1);
}

#[test]
fn unknown_base_is_a_bad_request() {
    let bases = vec![Base { name: "sales".to_owned(), info: String::new() }];
    let missing = get_base(&bases, "nope");
    assert!(matches!(missing, Err(SrvError::BadRequest(_))));
}

#[test]
fn two_digit_index_with_enough_params() {
    let params: Vec<&str> = vec!["a", "b", "c", "d", "e", "f", "g", "h", "i", "ten"];
    assert_eq!(subst("$10!", &params), "ten!");
}
