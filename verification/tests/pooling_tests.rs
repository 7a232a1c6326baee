use qinpel_srv::pooling::{Pool, format_csv_row, get_column_value_for_csv, parse_csv_field};

#[test]
fn comma_forces_quoting() {
    assert_eq!(get_column_value_for_csv("a,b".to_owned()), "\"a,b\"");
}

#[test]
fn quotes_are_doubled_and_quoted() {
    assert_eq!(get_column_value_for_csv("he\"llo".to_owned()), "\"he\"\"llo\"");
}

#[test]
fn control_characters_become_escapes() {
    assert_eq!(get_column_value_for_csv("a\nb\tc\rd".to_owned()), "a\\nb\\tc\\rd");
}

#[test]
fn backslash_is_doubled() {
    assert_eq!(get_column_value_for_csv("a\\b".to_owned()), "a\\\\b");
}

#[test]
fn plain_value_passes_through() {
    assert_eq!(get_column_value_for_csv("plain value 42".to_owned()), "plain value 42");
}

#[test]
fn csv_round_trip() {
    let original = "x,\"y\n\\z\tend\r";
    let encoded = get_column_value_for_csv(original.to_owned());
    let decoded = parse_csv_field(encoded.as_str());
    assert_eq!(decoded, original);
}

#[test]
fn csv_round_trip_plain() {
    let original = "nothing special";
    let encoded = get_column_value_for_csv(original.to_owned());
    assert_eq!(parse_csv_field(encoded.as_str()), original);
}

#[test]
fn parse_unquoted_field() {
    assert_eq!(parse_csv_field("abc"), "abc");
    assert_eq!(parse_csv_field("a\\nb"), "a\nb");
}

#[test]
fn parse_quoted_field() {
    assert_eq!(parse_csv_field("\"a,b\""), "a,b");
    assert_eq!(parse_csv_field("\"he\"\"llo\""), "he\"llo");
}

#[test]
fn row_line_joins_fields() {
    let row = vec!["x".to_owned(), "y,z".to_owned()];
    assert_eq!(format_csv_row(&row), "x,\"y,z\"\n");
}

#[test]
fn empty_row_is_a_bare_line() {
    let row: Vec<String> = Vec::new();
    assert_eq!(format_csv_row(&row), "\n");
}

#[test]
fn pool_caches_one_entry_per_name() {
    let mut pool: Pool<u32> = Pool::new();
    pool.insert_new("sales".to_owned(), 7);
    // A losing racer's freshly created handle is discarded: the first
    // entry stays, and no duplicate appears.
    pool.insert_new("sales".to_owned(), 8);
    assert_eq!(pool.entries.len(), 1);
    assert_eq!(pool.get("sales"), Some(&7));
    assert!(pool.contains("sales"));
    assert!(!pool.contains("billing"));
    assert_eq!(pool.get("billing"), None);
}

#[test]
fn pool_holds_many_names() {
    let mut pool: Pool<u32> = Pool::new();
    pool.insert_new("a".to_owned(), 1);
    pool.insert_new("b".to_owned(), 2);
    assert_eq!(pool.entries.len(), 2);
    assert_eq!(pool.get("a"), Some(&1));
    assert_eq!(pool.get("b"), Some(&2));
}

#[test]
fn empty_value_stays_empty() {
    assert_eq!(get_column_value_for_csv(String::new()), "");
    let row = vec![String::new(), String::new()];
    assert_eq!(format_csv_row(&row), ",\n");
}
