use zero2prod::configuration::Environment;
use zero2prod::idempotency::IdempotencyKey;

#[test]
fn environment_names_round_trip() {
    assert_eq!(Environment::Local.as_str(), "local");
    assert_eq!(Environment::Production.as_str(), "production");

    for spelling in ["local", "LOCAL", "Local", "lOcAl"] {
        let env = Environment::try_from(spelling.to_string()).expect("a known environment");
        assert_eq!(env.as_str(), "local");
    }
    for spelling in ["production", "PRODUCTION", "Production"] {
        let env = Environment::try_from(spelling.to_string()).expect("a known environment");
        assert_eq!(env.as_str(), "production");
    }
}

#[test]
fn unknown_environments_are_rejected() {
    match Environment::try_from("staging".to_string()) {
        Err(m) => assert_eq!(m, "staging is not a supported environment"),
        Ok(_) => panic!("an unknown environment must be rejected"),
    }
}

#[test]
fn idempotency_keys_keep_their_text() {
    let key = IdempotencyKey::try_from("abc-123".to_string()).expect("valid key");
    assert_eq!(key.as_ref(), "abc-123");
}
