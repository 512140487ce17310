use vault_inject::failure::{Failure, MissingSetting};
use vault_inject::resolve::find_secret;
use vault_inject::store::{fault_for_status, select_field, FieldMap, ReadOutcome, StoreConfig, StoreFault};

fn fields(pairs: &[(&str, &str)]) -> FieldMap {
    let mut map = FieldMap::new();
    for (name, value) in pairs {
        map.insert(name.to_string(), value.to_string());
    }
    map
}

#[test]
fn config_needs_address_and_token() {
    let config = StoreConfig::new(Some("http://127.0.0.1:8200".to_string()), Some("tok".to_string()));
    match config {
        Ok(c) => {
            assert_eq!(c.address, "http://127.0.0.1:8200");
            assert_eq!(c.token, "tok");
        }
        Err(_) => panic!("a complete configuration was refused"),
    }
}

#[test]
fn missing_address_is_a_configuration_failure() {
    match StoreConfig::new(None, Some("tok".to_string())) {
        Err(e) => assert_eq!(e, Failure::Configuration(MissingSetting::Address)),
        Ok(_) => panic!("accepted without an address"),
    }
    match StoreConfig::new(None, None) {
        Err(e) => assert_eq!(e, Failure::Configuration(MissingSetting::Address)),
        Ok(_) => panic!("accepted without anything"),
    }
}

#[test]
fn missing_token_is_a_configuration_failure() {
    match StoreConfig::new(Some("http://127.0.0.1:8200".to_string()), None) {
        Err(e) => assert_eq!(e, Failure::Configuration(MissingSetting::Token)),
        Ok(_) => panic!("accepted without a token"),
    }
}

#[test]
fn refused_token_statuses_are_auth_faults() {
    assert_eq!(fault_for_status(403), StoreFault::AuthRejected);
    assert_eq!(fault_for_status(401), StoreFault::AuthRejected);
}

#[test]
fn other_statuses_are_unreachable_faults() {
    assert_eq!(fault_for_status(404), StoreFault::Unreachable);
    assert_eq!(fault_for_status(500), StoreFault::Unreachable);
    assert_eq!(fault_for_status(503), StoreFault::Unreachable);
    assert_eq!(fault_for_status(0), StoreFault::Unreachable);
    assert_eq!(fault_for_status(402), StoreFault::Unreachable);
}

#[test]
fn field_map_returns_what_was_inserted() {
    let map = fields(&[("user", "alice"), ("password", "s3cr3t")]);
    assert_eq!(map.get("user"), Some(&"alice".to_string()));
    assert_eq!(map.get("password"), Some(&"s3cr3t".to_string()));
    assert_eq!(map.get("missing"), None);
    assert_eq!(map.get(""), None);
    assert_eq!(FieldMap::new().get("user"), None);
}

#[test]
fn field_map_insert_replaces_the_value() {
    let map = fields(&[("user", "alice"), ("other", "x"), ("user", "bob")]);
    assert_eq!(map.get("user"), Some(&"bob".to_string()));
    assert_eq!(map.get("other"), Some(&"x".to_string()));
}

#[test]
fn select_field_picks_the_requested_field() {
    let outcome: ReadOutcome = Ok(fields(&[("password", "X"), ("user", "Y")]));
    assert_eq!(select_field("password", Some(&outcome)), Ok("X".to_string()));
    assert_eq!(select_field("user", Some(&outcome)), Ok("Y".to_string()));
}

#[test]
fn select_field_reports_a_missing_field() {
    let outcome: ReadOutcome = Ok(fields(&[("password", "X")]));
    assert_eq!(
        select_field("token", Some(&outcome)),
        Err(Failure::FieldNotFound("token".to_string()))
    );
}

#[test]
fn select_field_reports_store_faults() {
    let unreachable: ReadOutcome = Err(StoreFault::Unreachable);
    let rejected: ReadOutcome = Err(StoreFault::AuthRejected);
    assert_eq!(select_field("f", Some(&unreachable)), Err(Failure::StoreUnreachable));
    assert_eq!(select_field("f", Some(&rejected)), Err(Failure::AuthError));
    assert_eq!(select_field("f", None), Err(Failure::StoreUnreachable));
}

#[test]
fn find_secret_hands_literals_on() {
    assert_eq!(
        find_secret("FOO", "plain", None),
        Ok(("FOO".to_string(), "plain".to_string()))
    );
    let outcome: ReadOutcome = Ok(fields(&[("plain", "other")]));
    assert_eq!(
        find_secret("FOO", "plain", Some(&outcome)),
        Ok(("FOO".to_string(), "plain".to_string()))
    );
    assert_eq!(find_secret("", "", None), Ok(("".to_string(), "".to_string())));
}

#[test]
fn find_secret_resolves_a_valid_reference() {
    let outcome: ReadOutcome = Ok(fields(&[("password", "X"), ("user", "Y")]));
    assert_eq!(
        find_secret("DB_PASS", "vault://v2/secret/data/db/password", Some(&outcome)),
        Ok(("DB_PASS".to_string(), "X".to_string()))
    );
}

#[test]
fn find_secret_twice_gives_the_same_plaintext() {
    let outcome: ReadOutcome = Ok(fields(&[("password", "X")]));
    let first = find_secret("K", "vault://v2/secret/data/db/password", Some(&outcome));
    let second = find_secret("K", "vault://v2/secret/data/db/password", Some(&outcome));
    assert_eq!(first, Ok(("K".to_string(), "X".to_string())));
    assert_eq!(first, second);
}

#[test]
fn find_secret_rejects_v1_whatever_the_store_says() {
    let outcome: ReadOutcome = Ok(fields(&[("c", "X")]));
    let expected = Err(Failure::UnsupportedApiVersion("vault://v1/a/b/c".to_string()));
    assert_eq!(find_secret("K", "vault://v1/a/b/c", Some(&outcome)), expected);
    assert_eq!(find_secret("K", "vault://v1/a/b/c", None), expected);
}

#[test]
fn find_secret_rejects_short_references_whatever_the_store_says() {
    let outcome: ReadOutcome = Ok(fields(&[("a", "X")]));
    let expected = Err(Failure::MalformedReference("vault://v2/a".to_string()));
    assert_eq!(find_secret("K", "vault://v2/a", Some(&outcome)), expected);
    assert_eq!(find_secret("K", "vault://v2/a", None), expected);
}

#[test]
fn find_secret_surfaces_store_failures() {
    let unreachable: ReadOutcome = Err(StoreFault::Unreachable);
    let rejected: ReadOutcome = Err(StoreFault::AuthRejected);
    let other: ReadOutcome = Ok(fields(&[("user", "Y")]));
    let value = "vault://v2/secret/data/db/password";
    assert_eq!(find_secret("K", value, Some(&unreachable)), Err(Failure::StoreUnreachable));
    assert_eq!(find_secret("K", value, Some(&rejected)), Err(Failure::AuthError));
    assert_eq!(find_secret("K", value, None), Err(Failure::StoreUnreachable));
    assert_eq!(
        find_secret("K", value, Some(&other)),
        Err(Failure::FieldNotFound("password".to_string()))
    );
}
