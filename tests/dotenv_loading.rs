use apollo_db_config::{get_env_var, init_env_from_dotenv, EnvVars};

fn loaded(content: &str) -> EnvVars {
    let mut env = EnvVars::new();
    init_env_from_dotenv(&mut env, content);
    env
}

#[test]
fn file_values_set_when_absent() {
    let env = loaded(
        "APOLLO_URL=http://localhost:8080\nAPOLLO_APP_ID=app\nAPOLLO_NAMESPACE_NAME=application\n\
         APOLLO_ACCESS_KEY=secret\nDB_IP_KEY=db.host\nDB_PORT_KEY=db.port\n",
    );
    assert_eq!(env.get("APOLLO_URL"), Some("http://localhost:8080".to_string()));
    assert_eq!(env.get("APOLLO_APP_ID"), Some("app".to_string()));
    assert_eq!(env.get("APOLLO_NAMESPACE_NAME"), Some("application".to_string()));
    assert_eq!(env.get("APOLLO_ACCESS_KEY"), Some("secret".to_string()));
    assert_eq!(env.get("DB_IP_KEY"), Some("db.host".to_string()));
    assert_eq!(env.get("DB_PORT_KEY"), Some("db.port".to_string()));
}

#[test]
fn existing_value_not_overridden() {
    let mut env = EnvVars::new();
    env.set("DB_IP_KEY".to_string(), "from.env".to_string());
    init_env_from_dotenv(&mut env, "DB_IP_KEY=from.file\nDB_PORT_KEY=port\n");
    assert_eq!(env.get("DB_IP_KEY"), Some("from.env".to_string()));
    assert_eq!(env.get("DB_PORT_KEY"), Some("port".to_string()));
}

#[test]
fn comment_and_blank_lines_ignored() {
    let env = loaded("# comment\n\nKEY=value");
    assert_eq!(env.get("KEY"), Some("value".to_string()));
    assert_eq!(env.get("# comment"), None);
    assert_eq!(env.get(""), None);
}

#[test]
fn whitespace_only_and_indented_comment_lines_ignored() {
    let env = loaded("   \t \n  # A=1\nB=2\n");
    assert_eq!(env.get("A"), None);
    assert_eq!(env.get("# A"), None);
    assert_eq!(env.get("B"), Some("2".to_string()));
}

#[test]
fn line_without_equals_ignored() {
    let env = loaded("JUST_A_WORD\nKEY=value\n");
    assert_eq!(env.get("JUST_A_WORD"), None);
    assert_eq!(env.get("KEY"), Some("value".to_string()));
}

#[test]
fn key_and_value_trimmed() {
    let env = loaded("   KEY \t=   some value  \n");
    assert_eq!(env.get("KEY"), Some("some value".to_string()));
}

#[test]
fn split_at_first_equals() {
    let env = loaded("URL=http://h/?a=b\n");
    assert_eq!(env.get("URL"), Some("http://h/?a=b".to_string()));
}

#[test]
fn first_assignment_in_file_wins() {
    let env = loaded("K=first\nK=second\n");
    assert_eq!(env.get("K"), Some("first".to_string()));
}

#[test]
fn crlf_line_endings() {
    let env = loaded("A=1\r\nB=2\r\n");
    assert_eq!(env.get("A"), Some("1".to_string()));
    assert_eq!(env.get("B"), Some("2".to_string()));
}

#[test]
fn empty_value_is_set() {
    let env = loaded("EMPTY=\n");
    assert_eq!(env.get("EMPTY"), Some(String::new()));
}

#[test]
fn unicode_white_space_trimmed() {
    let env = loaded("\u{a0}K\u{3000}=\u{2003}v\u{85}\n");
    assert_eq!(env.get("K"), Some("v".to_string()));
}

#[test]
fn empty_file_changes_nothing() {
    let mut env = EnvVars::new();
    env.set("A".to_string(), "1".to_string());
    init_env_from_dotenv(&mut env, "");
    assert_eq!(env.get("A"), Some("1".to_string()));
    assert!(!env.contains("B"));
}

#[test]
fn set_replaces_value() {
    let mut env = EnvVars::new();
    env.set("A".to_string(), "1".to_string());
    env.set("A".to_string(), "2".to_string());
    assert_eq!(env.get("A"), Some("2".to_string()));
    assert!(env.contains("A"));
}

#[test]
fn get_env_var_present() {
    let env = loaded("NAME=value\n");
    assert_eq!(get_env_var(&env, "NAME").ok(), Some("value".to_string()));
}

#[test]
fn get_env_var_missing_names_variable() {
    let env = EnvVars::new();
    let err = get_env_var(&env, "APOLLO_URL").err().unwrap();
    assert_eq!(err.name, "APOLLO_URL");
    assert_eq!(
        err.message(),
        "Environment variable `APOLLO_URL` not set or invalid: environment variable not found"
    );
}
