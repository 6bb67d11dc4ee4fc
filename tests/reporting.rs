use apollo_db_config::{report, report_lookup, Report};
use ini::Properties;

fn config(pairs: &[(&str, &str)]) -> Properties {
    let mut p = Properties::new();
    for (k, v) in pairs {
        p.append(*k, *v);
    }
    p
}

#[test]
fn host_and_port_printed() {
    let c = config(&[("db.host", "10.0.0.5"), ("db.port", "5432")]);
    let r = report(&c, "db.host", "db.port");
    assert_eq!(r.stdout_text(), "10.0.0.5:5432\n");
    assert_eq!(r.log_message(), None);
}

#[test]
fn missing_host_logged() {
    let c = config(&[("db.port", "5432")]);
    let r = report(&c, "db.host", "db.port");
    assert_eq!(r.stdout_text(), "");
    assert_eq!(
        r.log_message(),
        Some("Database host key 'db.host' not found in configuration".to_string())
    );
}

#[test]
fn missing_port_logged() {
    let c = config(&[("db.host", "10.0.0.5")]);
    let r = report(&c, "db.host", "db.port");
    assert_eq!(r.stdout_text(), "");
    assert_eq!(
        r.log_message(),
        Some("Database port key 'db.port' not found in configuration".to_string())
    );
}

#[test]
fn both_missing_reports_host() {
    let c = config(&[("other", "x")]);
    let r = report(&c, "db.host", "db.port");
    assert!(matches!(r, Report::MissingHost { ref key } if key == "db.host"));
    assert_eq!(r.stdout_text(), "");
}

#[test]
fn first_value_of_repeated_key_used() {
    let c = config(&[("h", "first"), ("p", "1"), ("h", "second")]);
    let r = report(&c, "h", "p");
    assert_eq!(r.stdout_text(), "first:1\n");
}

#[test]
fn lookup_outcomes() {
    let r = report_lookup(Some("a".to_string()), Some("b".to_string()), "h", "p");
    assert_eq!(r.stdout_text(), "a:b\n");
    let r = report_lookup(None, None, "h", "p");
    assert!(matches!(r, Report::MissingHost { ref key } if key == "h"));
    let r = report_lookup(Some("a".to_string()), None, "h", "p");
    assert!(matches!(r, Report::MissingPort { ref key } if key == "p"));
}
