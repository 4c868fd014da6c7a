use vaultenv::{exit_code, step, Action, Config, Document, Event, FailedStep, Stage, Vault, Var};

fn vault() -> Vault {
    Vault::new(
        "https://vault.example:8200".to_string(),
        "ci-role".to_string(),
        "jwt".to_string(),
        "secret".to_string(),
        "SECRET-REDACTED".to_string(),
        "/etc/ssl/ca.pem".to_string(),
        "app/prod".to_string(),
    )
}

fn rules() -> Vec<Var> {
    vec![Var::new("token".to_string(), "TOK".to_string()).unwrap()]
}

#[test]
fn config_accessors() {
    let config = Config::new(vault(), rules());
    let v = config.get_vault();
    assert_eq!(v.get_server_url(), "https://vault.example:8200");
    assert_eq!(v.get_auth_role(), "ci-role");
    assert_eq!(v.get_auth_login_mount(), "jwt");
    assert_eq!(v.get_kv_mount(), "secret");
    assert_eq!(v.get_id_token(), "SECRET-REDACTED");
    assert_eq!(v.get_ssl_certs(), "/etc/ssl/ca.pem");
    assert_eq!(v.get_path(), "app/prod");
    assert_eq!(config.get_vars().len(), 1);
    assert_eq!(config.get_vars()[0].get_export_to(), "TOK");
}

#[test]
fn successful_run_emits_and_exits_zero() {
    let rules = rules();
    let (s, a) = step(Stage::Idle, Event::Start, &rules);
    assert_eq!(s, Stage::Authenticating);
    assert!(matches!(a, Action::Authenticate));
    assert_eq!(exit_code(s), None);
    let (s, a) = step(s, Event::AuthSucceeded, &rules);
    assert_eq!(s, Stage::ReadingSecrets);
    assert!(matches!(a, Action::ReadSecrets));
    let doc = Document::Object(vec![(
        "data".to_string(),
        Document::Object(vec![("token".to_string(), Document::Text("a'b".to_string()))]),
    )]);
    let (s, a) = step(s, Event::ReadSucceeded(doc), &rules);
    assert_eq!(s, Stage::Projecting);
    match a {
        Action::Emit(lines) => {
            assert_eq!(lines.len(), 1);
            assert_eq!(lines[0].render(), b"export TOK='a'\"'\"'b'".to_vec());
        }
        other => panic!("unexpected action {:?}", other),
    }
    let (s, a) = step(s, Event::Emitted, &rules);
    assert_eq!(s, Stage::Done);
    assert!(matches!(a, Action::Finish));
    assert_eq!(exit_code(s), Some(0));
}

#[test]
fn scenario_auth_failure_is_fatal() {
    let rules = rules();
    let (s, _) = step(Stage::Idle, Event::Start, &rules);
    let (s, a) = step(s, Event::AuthFailed, &rules);
    assert_eq!(s, Stage::Failed);
    assert!(matches!(a, Action::Report(FailedStep::Authentication)));
    assert_eq!(exit_code(s), Some(1));
    let (s, a) = step(s, Event::ReadSucceeded(Document::Other), &rules);
    assert_eq!(s, Stage::Failed);
    assert!(matches!(a, Action::Ignore));
}

#[test]
fn read_failure_is_fatal() {
    let rules = rules();
    let (s, a) = step(Stage::ReadingSecrets, Event::ReadFailed, &rules);
    assert_eq!(s, Stage::Failed);
    assert!(matches!(a, Action::Report(FailedStep::Reading)));
    assert_eq!(exit_code(s), Some(1));
}

#[test]
fn empty_envelope_still_succeeds() {
    let rules = rules();
    let (s, a) = step(Stage::ReadingSecrets, Event::ReadSucceeded(Document::Other), &rules);
    assert_eq!(s, Stage::Projecting);
    assert!(matches!(a, Action::Emit(ref lines) if lines.is_empty()));
}

#[test]
fn events_out_of_place_are_ignored() {
    let rules = rules();
    let (s, a) = step(Stage::Idle, Event::Emitted, &rules);
    assert_eq!(s, Stage::Idle);
    assert!(matches!(a, Action::Ignore));
    let (s, a) = step(Stage::Done, Event::AuthFailed, &rules);
    assert_eq!(s, Stage::Done);
    assert!(matches!(a, Action::Ignore));
}
