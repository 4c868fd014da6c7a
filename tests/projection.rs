use vaultenv::{project, quote_value, secret_collection, Document, ExportLine, SecretValue, Var};

fn rule(key: &str, export_to: &str) -> Var {
    Var::new(key.to_string(), export_to.to_string()).unwrap()
}

fn text(key: &str, value: &str) -> (String, SecretValue) {
    (key.to_string(), SecretValue::Text(value.to_string()))
}

fn rendered(lines: &[ExportLine]) -> Vec<String> {
    lines.iter().map(|l| String::from_utf8(l.render()).unwrap()).collect()
}

#[test]
fn scenario_two_secrets_in_collection_order() {
    let entries = vec![text("db_user", "alice"), text("db_pass", "p@ss!")];
    let rules = vec![rule("db_user", "DB_USER"), rule("db_pass", "DB_PASSWORD")];
    let lines = project(&entries, &rules);
    assert_eq!(
        rendered(&lines),
        vec!["export DB_USER='alice'".to_string(), "export DB_PASSWORD='p@ss!'".to_string()]
    );
}

#[test]
fn scenario_single_quote_in_value() {
    let entries = vec![text("token", "a'b")];
    let rules = vec![rule("token", "TOK")];
    let lines = project(&entries, &rules);
    assert_eq!(rendered(&lines), vec!["export TOK='a'\"'\"'b'".to_string()]);
    assert_eq!(lines[0].target_name(), "TOK");
    assert_eq!(lines[0].quoted_value(), b"'a'\"'\"'b'");
}

#[test]
fn scenario_empty_collection() {
    let entries: Vec<(String, SecretValue)> = Vec::new();
    let rules = vec![rule("a", "A"), rule("b", "B")];
    assert!(project(&entries, &rules).is_empty());
}

#[test]
fn empty_rule_list_gives_nothing() {
    let entries = vec![text("a", "1")];
    assert!(project(&entries, &Vec::new()).is_empty());
}

#[test]
fn first_rule_wins_for_duplicate_keys() {
    let entries = vec![text("k", "v")];
    let rules = vec![rule("k", "FIRST"), rule("k", "SECOND")];
    let lines = project(&entries, &rules);
    assert_eq!(rendered(&lines), vec!["export FIRST='v'".to_string()]);
}

#[test]
fn duplicate_secret_keys_each_give_a_line() {
    let entries = vec![text("k", "one"), text("k", "two")];
    let rules = vec![rule("k", "K")];
    let lines = project(&entries, &rules);
    assert_eq!(rendered(&lines), vec!["export K='one'".to_string(), "export K='two'".to_string()]);
}

#[test]
fn structured_value_is_skipped() {
    let entries = vec![("nested".to_string(), SecretValue::Structured), text("plain", "x")];
    let rules = vec![rule("nested", "NESTED"), rule("plain", "PLAIN")];
    let lines = project(&entries, &rules);
    assert_eq!(rendered(&lines), vec!["export PLAIN='x'".to_string()]);
}

#[test]
fn unmatched_keys_and_rules_pass_through() {
    let entries = vec![text("extra", "e"), text("used", "u")];
    let rules = vec![rule("missing", "MISSING"), rule("used", "USED")];
    let lines = project(&entries, &rules);
    assert_eq!(rendered(&lines), vec!["export USED='u'".to_string()]);
}

#[test]
fn output_follows_collection_not_rules() {
    let entries = vec![text("b", "2"), text("a", "1")];
    let rules = vec![rule("a", "A"), rule("b", "B")];
    let lines = project(&entries, &rules);
    assert_eq!(rendered(&lines), vec!["export B='2'".to_string(), "export A='1'".to_string()]);
}

#[test]
fn quoting_of_special_values() {
    assert_eq!(quote_value(""), b"''".to_vec());
    assert_eq!(quote_value("alice"), b"'alice'".to_vec());
    assert_eq!(quote_value("-rf"), b"'-rf'".to_vec());
    assert_eq!(quote_value("a b"), b"'a b'".to_vec());
    assert_eq!(quote_value("$HOME"), b"'$HOME'".to_vec());
    assert_eq!(quote_value("`ls`"), b"'`ls`'".to_vec());
    assert_eq!(quote_value("-n\nsecond\n"), b"'-n\nsecond\n'".to_vec());
    assert_eq!(quote_value("a\\b"), b"'a\\b'".to_vec());
    assert_eq!(quote_value("a'b\"c\\d"), b"'a'\"'\"'b\"c\\d'".to_vec());
    assert_eq!(quote_value("''"), b"''\"'\"''\"'\"''".to_vec());
    assert_eq!(quote_value("$(id)`id`${HOME}*?[a] ~;|&"), b"'$(id)`id`${HOME}*?[a] ~;|&'".to_vec());
    assert_eq!(quote_value("caf\u{e9}"), "'caf\u{e9}'".as_bytes().to_vec());
}

#[test]
fn empty_value_is_exported_as_empty_word() {
    let entries = vec![text("e", "")];
    let rules = vec![rule("e", "EMPTY")];
    assert_eq!(rendered(&project(&entries, &rules)), vec!["export EMPTY=''".to_string()]);
}

#[test]
fn rules_need_both_names() {
    assert!(Var::new(String::new(), "X".to_string()).is_none());
    assert!(Var::new("x".to_string(), String::new()).is_none());
    let v = rule("x", "X");
    assert_eq!(v.get_key(), "x");
    assert_eq!(v.get_export_to(), "X");
}

fn envelope(fields: Vec<(String, Document)>) -> Document {
    Document::Object(vec![
        ("metadata".to_string(), Document::Other),
        ("data".to_string(), Document::Object(fields)),
    ])
}

#[test]
fn envelope_is_unwrapped() {
    let doc = envelope(vec![
        ("user".to_string(), Document::Text("bob".to_string())),
        ("port".to_string(), Document::Other),
        ("inner".to_string(), Document::Object(Vec::new())),
    ]);
    let entries = secret_collection(doc);
    assert_eq!(entries.len(), 3);
    assert_eq!(entries[0].0, "user");
    assert!(matches!(&entries[0].1, SecretValue::Text(s) if s == "bob"));
    assert_eq!(entries[1].0, "port");
    assert!(matches!(entries[1].1, SecretValue::Structured));
    assert_eq!(entries[2].0, "inner");
    assert!(matches!(entries[2].1, SecretValue::Structured));
}

#[test]
fn malformed_envelopes_give_empty_collections() {
    assert!(secret_collection(Document::Other).is_empty());
    assert!(secret_collection(Document::Text("data".to_string())).is_empty());
    let no_data = Document::Object(vec![("other".to_string(), Document::Object(Vec::new()))]);
    assert!(secret_collection(no_data).is_empty());
    let data_not_object =
        Document::Object(vec![("data".to_string(), Document::Text("x".to_string()))]);
    assert!(secret_collection(data_not_object).is_empty());
}

#[test]
fn first_data_field_is_the_envelope() {
    let doc = Document::Object(vec![
        (
            "data".to_string(),
            Document::Object(vec![("a".to_string(), Document::Text("1".to_string()))]),
        ),
        (
            "data".to_string(),
            Document::Object(vec![("b".to_string(), Document::Text("2".to_string()))]),
        ),
    ]);
    let entries = secret_collection(doc);
    assert_eq!(entries.len(), 1);
    assert_eq!(entries[0].0, "a");
}
