use mechaway::config::{parse_port, Config};
use mechaway::context::{put_value, ExecutionContext};
use mechaway::json::{parse_json, JsonValue};
use mechaway::project::{tenant_db_file, Project};
use mechaway::sql::{build_create_table, build_insert, build_select, filter_ok, identifier_ok};
use mechaway::text::{int_to_text, split_char, to_upper};

#[test]
fn port_parsing() {
    assert_eq!(parse_port("3004"), Some(3004));
    assert_eq!(parse_port("+80"), Some(80));
    assert_eq!(parse_port("65535"), Some(65535));
    assert_eq!(parse_port("65536"), None);
    assert_eq!(parse_port("99999999999"), None);
    assert_eq!(parse_port(""), None);
    assert_eq!(parse_port("+"), None);
    assert_eq!(parse_port("80a"), None);
    assert_eq!(parse_port(" 80"), None);
}

#[test]
fn config_defaults() {
    let c = Config::from_settings(None, None, None);
    assert_eq!(c.server.host, "0.0.0.0");
    assert_eq!(c.server.port, 3004);
    assert_eq!(c.database.project_data_dir, "data");
    let d = Config::from_settings(Some("127.0.0.1".to_string()), Some("nope".to_string()), Some("/srv".to_string()));
    assert_eq!(d.server.host, "127.0.0.1");
    assert_eq!(d.server.port, 3004);
    assert_eq!(d.database.project_data_dir, "/srv");
    assert_eq!(Config::from_settings(None, Some("8080".to_string()), None).server.port, 8080);
}

#[test]
fn project_paths() {
    let p = Project::default();
    assert_eq!(p.slug, "default");
    assert_eq!(p.project_dir(), "default");
    assert_eq!(p.project_db_path(), "default/project.db");
    assert_eq!(p.simpletable_db_path(), "default/simpletable.db");
    assert_eq!(tenant_db_file("data", "shop", "project.db"), "data/shop/project.db");
}

#[test]
fn sql_builders() {
    let cols = vec!["a".to_string(), "b".to_string()];
    assert_eq!(build_create_table("t", &cols), "CREATE TABLE IF NOT EXISTS t (id INTEGER PRIMARY KEY AUTOINCREMENT, a TEXT, b TEXT)");
    assert_eq!(build_insert("t", &cols), "INSERT INTO t (a, b) VALUES (?, ?)");
    let f = "x = 1".to_string();
    assert_eq!(build_select("t", Some(&f), 7), "SELECT * FROM t WHERE x = 1 ORDER BY id DESC LIMIT 7");
    assert!(identifier_ok("grades_2024"));
    assert!(!identifier_ok("a-b"));
    assert!(filter_ok("(a >= 1) AND b != 2"));
    assert!(!filter_ok("a = 'x'"));
    assert!(!filter_ok("a = 1;"));
}

#[test]
fn text_helpers() {
    assert_eq!(int_to_text(-120), "-120");
    assert_eq!(int_to_text(0), "0");
    assert_eq!(int_to_text(18446744073709551615), "18446744073709551615");
    assert_eq!(split_char("a..b", '.'), vec!["a".to_string(), String::new(), "b".to_string()]);
    assert_eq!(to_upper("patch"), "PATCH");
}

#[test]
fn json_text_parses() {
    assert!(matches!(parse_json("{\"a\": [1, 2.5, null]}"), Some(JsonValue::Object(_))));
    assert!(matches!(parse_json("-3"), Some(JsonValue::Int(-3))));
    assert!(matches!(parse_json("2.5"), Some(JsonValue::Float(ref t)) if t == "2.5"));
    assert!(parse_json("{oops").is_none());
}

#[test]
fn metadata_put_replaces_or_appends() {
    let mut ctx = ExecutionContext::from_array_data("wf".to_string(), vec![], "default".to_string());
    assert!(ctx.data.is_empty());
    put_value(&mut ctx.metadata, "k".to_string(), JsonValue::Int(1));
    put_value(&mut ctx.metadata, "k".to_string(), JsonValue::Int(2));
    assert_eq!(ctx.metadata.len(), 3);
    assert!(matches!(ctx.metadata[2].1, JsonValue::Int(2)));
    assert_eq!(ctx.metadata[0].0, "workflow_id");
}

#[test]
fn started_at_is_a_utc_rfc3339_timestamp() {
    let ctx = ExecutionContext::from_array_data("wf".to_string(), vec![], "default".to_string());
    match &ctx.metadata[1].1 {
        JsonValue::Str(t) => {
            assert!(t.len() >= 25);
            assert!(t.ends_with("+00:00"));
            assert_eq!(&t[10..11], "T");
        }
        _ => panic!("expected a timestamp"),
    }
}
