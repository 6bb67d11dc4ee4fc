use apollo_db_config::settings::{
    APOLLO_ACCESS_KEY_ENV, APOLLO_APP_ID_ENV, APOLLO_NAMESPACE_NAME_ENV, APOLLO_URL_ENV,
    DB_IP_KEY_ENV, DB_PORT_KEY_ENV,
};
use apollo_db_config::{load_settings, read_required_vars, EnvVars, SettingsError};

const NAMES: [&str; 6] = [
    APOLLO_URL_ENV,
    APOLLO_APP_ID_ENV,
    APOLLO_NAMESPACE_NAME_ENV,
    APOLLO_ACCESS_KEY_ENV,
    DB_IP_KEY_ENV,
    DB_PORT_KEY_ENV,
];

fn env_without(skip: &[&str], url: &str) -> EnvVars {
    let mut env = EnvVars::new();
    let values = [url, "app", "application", "secret", "db.host", "db.port"];
    for (name, value) in NAMES.iter().zip(values.iter()) {
        if !skip.contains(name) {
            env.set(name.to_string(), value.to_string());
        }
    }
    env
}

#[test]
fn all_variables_present() {
    let env = env_without(&[], "http://localhost:8080");
    let s = load_settings(&env).ok().unwrap();
    assert_eq!(s.apollo_url.as_str(), "http://localhost:8080/");
    assert_eq!(s.app_id, "app");
    assert_eq!(s.namespace_name, "application");
    assert_eq!(s.access_key, "secret");
    assert_eq!(s.db_ip_key, "db.host");
    assert_eq!(s.db_port_key, "db.port");
}

#[test]
fn each_missing_variable_is_named() {
    for name in NAMES {
        let env = env_without(&[name], "http://localhost:8080");
        match load_settings(&env) {
            Err(SettingsError::MissingVar(e)) => assert_eq!(e.name, name),
            _ => panic!("expected a missing variable error for {}", name),
        }
    }
}

#[test]
fn first_missing_variable_is_named() {
    let env = env_without(&[DB_PORT_KEY_ENV, APOLLO_APP_ID_ENV], "not a url");
    match load_settings(&env) {
        Err(SettingsError::MissingVar(e)) => assert_eq!(e.name, APOLLO_APP_ID_ENV),
        _ => panic!("expected a missing variable error"),
    }
}

#[test]
fn invalid_url_fails() {
    let env = env_without(&[], "not a url");
    assert!(matches!(load_settings(&env), Err(SettingsError::InvalidUrl(_))));
}

#[test]
fn required_vars_read_in_order() {
    let env = env_without(&[], "whatever");
    let v = read_required_vars(&env).ok().unwrap();
    assert_eq!(v.apollo_url, "whatever");
    assert_eq!(v.db_port_key, "db.port");
    let parsed = url::Url::parse("http://config:8080");
    let s = v.into_settings(parsed).ok().unwrap();
    assert_eq!(s.apollo_url.as_str(), "http://config:8080/");
}

#[test]
fn into_settings_keeps_parse_error() {
    let env = env_without(&[], "x");
    let v = read_required_vars(&env).ok().unwrap();
    let parsed = url::Url::parse("x");
    let err = parsed.clone().err().unwrap();
    match v.into_settings(parsed) {
        Err(SettingsError::InvalidUrl(p)) => assert_eq!(p, err),
        _ => panic!("expected an invalid url error"),
    }
}
