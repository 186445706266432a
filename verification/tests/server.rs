use secretd::server::{GetKeysInput, SecretsServer, VaultError, STATUS_OK};

fn server() -> SecretsServer {
    SecretsServer::new("https://vault.example".to_string(), "vault-token".to_string())
}

fn high_key(byte: u8) -> Vec<u8> {
    vec![0x80 | byte; 32]
}

#[test]
fn new_server_has_an_empty_store() {
    let server = server();
    assert_eq!(server.store.len(), 0);
    assert_eq!(server.base_url, "https://vault.example");
    assert_eq!(server.token, "vault-token");
}

#[test]
fn project_request_is_composed_from_the_coordinates() {
    let server = server();
    let input = GetKeysInput { project_name: "backend".to_string(), token: "tok-1".to_string() };
    let request = server.build_project(&input);
    assert_eq!(request.url, "https://vault.example/projects/getkeys");
    assert_eq!(request.authorization, "Bearer vault-token");
    assert_eq!(request.body, r#"{"project_name":"backend","token":"tok-1"}"#);
}

#[test]
fn project_request_quotes_what_json_needs_quoted() {
    let server = server();
    let input = GetKeysInput { project_name: "a\"b".to_string(), token: "c\\d".to_string() };
    let request = server.build_project(&input);
    assert_eq!(request.body, r#"{"project_name":"a\"b","token":"c\\d"}"#);
}

#[test]
fn status_ok_is_two_hundred() {
    assert_eq!(STATUS_OK, 200);
}

#[test]
fn project_is_refused_on_another_status() {
    let mut server = server();
    let keys = vec![("A".to_string(), Some("1".to_string()))];
    for status in [0u16, 199, 201, 401, 404, 500] {
        let loaded = server.load_project(status, Some(keys.clone()));
        assert!(matches!(loaded, Err(VaultError::Rejected)));
    }
    assert_eq!(server.store.len(), 0);
}

#[test]
fn project_keys_that_are_text_are_stored() {
    let mut server = server();
    let keys = vec![
        ("DB_URL".to_string(), Some("postgres://db".to_string())),
        ("RETRIES".to_string(), None),
        ("API_KEY".to_string(), Some("abc".to_string())),
    ];
    let report = server.load_project(200, Some(keys)).unwrap();
    assert!(report.found);
    assert!(report.refused.is_empty());
    assert_eq!(server.store.len(), 2);
    assert_eq!(server.store.get_secret("DB_URL"), Some("postgres://db".to_string()));
    assert_eq!(server.store.get_secret("API_KEY"), Some("abc".to_string()));
    assert_eq!(server.store.get_secret("RETRIES"), None);
}

#[test]
fn project_without_keys_changes_nothing() {
    let mut server = server();
    let report = server.load_project(200, None).unwrap();
    assert!(!report.found);
    assert!(report.refused.is_empty());
    assert_eq!(server.store.len(), 0);
    let report = server.load_project(200, Some(Vec::new())).unwrap();
    assert!(report.found);
    assert_eq!(server.store.len(), 0);
}

#[test]
fn string_members_keep_order_and_drop_what_is_no_text() {
    let keys = vec![
        ("b".to_string(), Some("2".to_string())),
        ("x".to_string(), None),
        ("a".to_string(), Some("1".to_string())),
    ];
    assert_eq!(
        secretd::server::string_members(&keys),
        vec![("b".to_string(), "2".to_string()), ("a".to_string(), "1".to_string())]
    );
}

#[test]
fn get_keys_gives_the_secret_of_the_project() {
    let mut server = server();
    assert!(server
        .store
        .store_secret_with_key("backend_tok-1".to_string(), "bundle".to_string(), high_key(5))
        .is_ok());
    assert_eq!(
        server.get_keys("backend".to_string(), "tok-1".to_string()),
        vec![("keys".to_string(), "bundle".to_string())]
    );
}

#[test]
fn get_keys_of_an_unknown_project_gives_nothing() {
    let mut server = server();
    assert!(server
        .store
        .store_secret_with_key("backend_tok-1".to_string(), "bundle".to_string(), high_key(5))
        .is_ok());
    assert!(server.get_keys("backend".to_string(), "tok-2".to_string()).is_empty());
    assert!(server.get_keys("backend_tok-1".to_string(), String::new()).is_empty());
    assert!(server.get_keys(String::new(), "backend_tok-1".to_string()).is_empty());
}
