use mechaway::context::{ExecutionContext, FileInfo, NodeError};
use mechaway::executor::{
    complete_fun_logic, complete_http, complete_table_query, complete_table_read, complete_table_write,
    plan_fun_logic, plan_http, plan_table_query, plan_table_read, plan_table_write, prepare_node,
    HttpBody, NodeAction,
};
use mechaway::json::JsonValue;
use mechaway::pins::{evaluate_input_pin, evaluate_secret_pins, is_safe_expression, script_pins};
use mechaway::workflow::{Node, NodeType};

fn obj(pairs: Vec<(&str, JsonValue)>) -> JsonValue {
    JsonValue::Object(pairs.into_iter().map(|(k, v)| (k.to_string(), v)).collect())
}

fn text(s: &str) -> JsonValue {
    JsonValue::Str(s.to_string())
}

fn strings(v: &[&str]) -> Vec<String> {
    v.iter().map(|s| s.to_string()).collect()
}

fn node(t: NodeType, params: JsonValue, inputs: Option<&[&str]>) -> Node {
    Node {
        id: "n1".to_string(),
        node_type: t,
        params,
        inputs: inputs.map(strings),
        outputs: None,
        secrets: None,
    }
}

fn ctx_with(data: JsonValue) -> ExecutionContext {
    ExecutionContext::from_webhook_data("wf".to_string(), data, "default".to_string())
}

fn field<'a>(v: &'a JsonValue, k: &str) -> &'a JsonValue {
    match v {
        JsonValue::Object(es) => &es.iter().find(|(key, _)| key == k).unwrap().1,
        _ => panic!("not an object"),
    }
}

#[test]
fn json_pin_binds_the_slug() {
    let ctx = ctx_with(obj(vec![("slug", text("hello"))]));
    let n = node(
        NodeType::SimpleTableQuery,
        obj(vec![("query", text("SELECT * FROM posts WHERE slug = ?")), ("table", text("posts"))]),
        Some(&["$json.slug"]),
    );
    let (q, binds, t) = plan_table_query(&n, &ctx, &vec![]).ok().unwrap();
    assert_eq!(q, "SELECT * FROM posts WHERE slug = ?");
    assert_eq!(t, "posts");
    assert_eq!(binds.len(), 1);
    assert!(matches!(&binds[0], JsonValue::Str(s) if s == "hello"));
}

#[test]
fn query_without_table_is_unknown_table() {
    let ctx = ctx_with(JsonValue::Null);
    let n = node(NodeType::SimpleTableQuery, obj(vec![("query", text("SELECT 1"))]), None);
    let (_, binds, t) = plan_table_query(&n, &ctx, &vec![]).ok().unwrap();
    assert_eq!(t, "unknown_table");
    assert!(binds.is_empty());
    let missing = node(NodeType::SimpleTableQuery, obj(vec![]), None);
    assert!(matches!(plan_table_query(&missing, &ctx, &vec![]), Err(NodeError::BadNode(_))));
}

#[test]
fn nested_json_pin_and_missing_path() {
    let ctx = ctx_with(obj(vec![("user", obj(vec![("name", text("ada"))]))]));
    let v = evaluate_input_pin("$json.user.name", &ctx, &vec![]).ok().unwrap();
    assert!(matches!(v, JsonValue::Str(ref s) if s == "ada"));
    let missing = evaluate_input_pin("$json.user.age", &ctx, &vec![]).ok().unwrap();
    assert!(matches!(missing, JsonValue::Null));
    let through_text = evaluate_input_pin("$json.user.name.first", &ctx, &vec![]).ok().unwrap();
    assert!(matches!(through_text, JsonValue::Null));
    let whole = evaluate_input_pin("$json", &ctx, &vec![]).ok().unwrap();
    assert!(matches!(whole, JsonValue::Object(_)));
}

#[test]
fn context_pins_read_query_headers_and_files() {
    let mut ctx = ctx_with(obj(vec![("mqtt", obj(vec![("topic", text("t/1"))]))]));
    ctx.query.push(("page".to_string(), "2".to_string()));
    ctx.headers.push(("x-token".to_string(), "abc".to_string()));
    ctx.files.push((
        "doc".to_string(),
        FileInfo { filename: "a.txt".to_string(), content_type: "text/plain".to_string(), size: 3, path: "/tmp/a".to_string() },
    ));
    assert!(matches!(evaluate_input_pin("$query.page", &ctx, &vec![]).ok().unwrap(), JsonValue::Str(ref s) if s == "2"));
    assert!(matches!(evaluate_input_pin("$query.none", &ctx, &vec![]).ok().unwrap(), JsonValue::Null));
    assert!(matches!(evaluate_input_pin("$headers.x-token", &ctx, &vec![]).ok().unwrap(), JsonValue::Str(ref s) if s == "abc"));
    assert!(matches!(evaluate_input_pin("$headers.X-Token", &ctx, &vec![]).ok().unwrap(), JsonValue::Str(ref s) if s == "abc"));
    let f = evaluate_input_pin("$file.doc", &ctx, &vec![]).ok().unwrap();
    assert!(matches!(field(&f, "size"), JsonValue::Int(3)));
    assert!(matches!(field(&f, "filename"), JsonValue::Str(s) if s == "a.txt"));
    assert!(matches!(evaluate_input_pin("$mqtt.topic", &ctx, &vec![]).ok().unwrap(), JsonValue::Str(ref s) if s == "t/1"));
    assert!(matches!(evaluate_input_pin("$mcp.topic", &ctx, &vec![]).ok().unwrap(), JsonValue::Null));
}

#[test]
fn literal_pins_parse_as_json_or_stay_text() {
    let ctx = ctx_with(JsonValue::Null);
    let parsed = evaluate_input_pin("{\"k\": [1, 2]}", &ctx, &vec![]).ok().unwrap();
    assert!(matches!(field(&parsed, "k"), JsonValue::Array(a) if a.len() == 2));
    assert!(matches!(evaluate_input_pin("$secret.x", &ctx, &vec![]).ok().unwrap(), JsonValue::Str(ref s) if s == "$secret.x"));
    assert!(matches!(evaluate_input_pin("note: x", &ctx, &vec![]).ok().unwrap(), JsonValue::Str(ref s) if s == "note: x"));
    // plain words and numbers go to the sandbox
    assert!(matches!(evaluate_input_pin("true", &ctx, &vec![]), Err(NodeError::ScriptError(_))));
}

#[test]
fn script_pins_take_sandbox_results() {
    let ctx = ctx_with(JsonValue::Null);
    assert!(is_safe_expression("now()"));
    assert!(is_safe_expression("1 + 2"));
    assert!(!is_safe_expression("os.time()"));
    assert!(!is_safe_expression("math.floor(require('x'))"));
    assert!(!is_safe_expression("a;b"));
    let long = "1".repeat(200);
    assert!(!is_safe_expression(&long));
    let scripts = vec![("1 + 2".to_string(), Ok(JsonValue::Int(3))), ("now()".to_string(), Err("boom".to_string()))];
    assert!(matches!(evaluate_input_pin("1 + 2", &ctx, &scripts).ok().unwrap(), JsonValue::Int(3)));
    assert!(matches!(evaluate_input_pin("now()", &ctx, &scripts), Err(NodeError::ScriptError(_))));
    assert!(matches!(evaluate_input_pin("2 * 5", &ctx, &scripts), Err(NodeError::ScriptError(_))));
    let listed = script_pins(&strings(&["$json.a", "now()", "plain text!", "1 + 2"]));
    assert_eq!(listed, strings(&["now()", "1 + 2"]));
}

#[test]
fn secrets_resolve_from_the_vault() {
    let vault = vec![("pg".to_string(), "postgres://x".to_string())];
    let ok = evaluate_secret_pins(&strings(&["$secret.pg"]), &vault).ok().unwrap();
    assert_eq!(ok, strings(&["postgres://x"]));
    assert!(matches!(evaluate_secret_pins(&strings(&["$secret.nope"]), &vault), Err(NodeError::MissingSecret(_))));
    assert!(matches!(evaluate_secret_pins(&strings(&["pg"]), &vault), Err(NodeError::MissingSecret(_))));
}

#[test]
fn pg_query_without_secrets_fails() {
    let mut ctx = ctx_with(JsonValue::Null);
    let n = node(NodeType::PGQuery, obj(vec![("query", text("SELECT 1"))]), None);
    assert!(matches!(prepare_node(&n, &mut ctx, &vec![], &vec![]), Err(NodeError::MissingSecret(_))));
}

#[test]
fn pg_query_with_secret_records_the_query() {
    let mut ctx = ctx_with(obj(vec![("id", JsonValue::Int(5))]));
    let mut n = node(NodeType::PGQuery, obj(vec![("query", text("SELECT * FROM u WHERE id = $1"))]), Some(&["$json.id"]));
    n.secrets = Some(strings(&["$secret.pg"]));
    let vault = vec![("pg".to_string(), "postgres://x".to_string())];
    match prepare_node(&n, &mut ctx, &vec![], &vault) {
        Ok(NodeAction::Finished(res)) => {
            assert!(res.should_continue);
            assert!(matches!(field(&res.data[0], "connection"), JsonValue::Str(s) if s == "REDACTED"));
            assert!(matches!(field(&res.data[0], "bind_params"), JsonValue::Array(a) if matches!(a[0], JsonValue::Int(5))));
            assert!(res.metadata.iter().any(|(k, _)| k == "current_node_id"));
        }
        _ => panic!("expected a finished node"),
    }
}

#[test]
fn pg_dyn_writer_checks_pins() {
    let mut ctx = ctx_with(JsonValue::Null);
    let mut n = node(NodeType::PGDynTableWriter, obj(vec![("table", text("t")), ("columns", JsonValue::Array(vec![text("a"), text("b")]))]), Some(&["1"]));
    n.secrets = Some(strings(&["$secret.pg"]));
    let vault = vec![("pg".to_string(), "postgres://x".to_string())];
    assert!(matches!(prepare_node(&n, &mut ctx, &vec![], &vault), Err(NodeError::ValidationError(_))));
    n.inputs = None;
    assert!(matches!(prepare_node(&n, &mut ctx, &vec![], &vault), Err(NodeError::ValidationError(_))));
}

#[test]
fn trigger_nodes_are_refused() {
    let mut ctx = ctx_with(JsonValue::Null);
    for t in [NodeType::Webhook, NodeType::CronTrigger, NodeType::MCPTrigger, NodeType::WebSocketTrigger, NodeType::MQTTTrigger] {
        let n = node(t, obj(vec![]), None);
        assert!(matches!(prepare_node(&n, &mut ctx, &vec![], &vec![]), Err(NodeError::TriggerMisuse)));
    }
}

#[test]
fn prepare_records_the_node_in_metadata() {
    let mut ctx = ctx_with(JsonValue::Null);
    let n = node(NodeType::FunLogic, obj(vec![("script", text("return 1"))]), None);
    let action = prepare_node(&n, &mut ctx, &vec![], &vec![]).ok().unwrap();
    assert!(matches!(action, NodeAction::RunScript(_, _)));
    let keys: Vec<&str> = ctx.metadata.iter().map(|(k, _)| k.as_str()).collect();
    assert_eq!(keys, vec!["workflow_id", "started_at", "current_node_id", "current_node_type", "execution_start"]);
    assert!(matches!(&ctx.metadata[3].1, JsonValue::Str(s) if s == "FunLogic"));
}

#[test]
fn fun_logic_binds_data_as_a_lua_table() {
    let ctx = ctx_with(obj(vec![("score", JsonValue::Int(40)), ("name", text("a\"b\nc"))]));
    let n = node(NodeType::FunLogic, obj(vec![("script", text("return {score=data[1].score*2}"))]), None);
    let (setup, script) = plan_fun_logic(&n, &ctx).ok().unwrap();
    assert_eq!(setup, "data = {{[\"score\"] = 40, [\"name\"] = \"a\\\"b\\nc\"}}");
    assert_eq!(script, "return {score=data[1].score*2}");
    let bad = node(NodeType::FunLogic, obj(vec![]), None);
    assert!(matches!(plan_fun_logic(&bad, &ctx), Err(NodeError::BadNode(_))));
}

#[test]
fn fun_logic_result_is_wrapped_unless_array() {
    let one = complete_fun_logic(obj(vec![("score", JsonValue::Int(80))]), vec![]);
    assert_eq!(one.data.len(), 1);
    let many = complete_fun_logic(JsonValue::Array(vec![JsonValue::Int(1), JsonValue::Int(2)]), vec![]);
    assert_eq!(many.data.len(), 2);
    assert!(many.should_continue);
}

#[test]
fn grade_table_write_plan_and_record() {
    let ctx = ctx_with(obj(vec![("score", JsonValue::Int(80))]));
    let n = node(
        NodeType::SimpleTableWriter,
        obj(vec![("table", text("grades")), ("columns", JsonValue::Array(vec![text("score")]))]),
        None,
    );
    let plan = plan_table_write(&n, &ctx, &vec![]).ok().unwrap();
    assert_eq!(plan.create_sql, "CREATE TABLE IF NOT EXISTS grades (id INTEGER PRIMARY KEY AUTOINCREMENT, score TEXT)");
    assert_eq!(plan.insert_sql, "INSERT INTO grades (score) VALUES (?)");
    assert!(matches!(plan.values[0], JsonValue::Int(80)));
    let r = complete_table_write(plan, 1, 1, vec![]);
    let rec = &r.data[0];
    assert!(matches!(field(rec, "_success"), JsonValue::Bool(true)));
    let inserted = field(rec, "inserted_data");
    assert!(matches!(field(inserted, "table"), JsonValue::Str(s) if s == "grades"));
    assert!(matches!(field(inserted, "values"), JsonValue::Array(v) if matches!(v[0], JsonValue::Int(80))));
}

#[test]
fn table_write_validation() {
    let ctx = ctx_with(JsonValue::Null);
    let two = node(
        NodeType::SimpleTableWriter,
        obj(vec![("table", text("t")), ("columns", JsonValue::Array(vec![text("a"), text("b")]))]),
        Some(&["1"]),
    );
    assert!(matches!(plan_table_write(&two, &ctx, &vec![]), Err(NodeError::ValidationError(_))));
    let bad_table = node(NodeType::SimpleTableWriter, obj(vec![("table", text("t;drop")), ("columns", JsonValue::Array(vec![text("a")]))]), None);
    assert!(matches!(plan_table_write(&bad_table, &ctx, &vec![]), Err(NodeError::ValidationError(_))));
    let no_cols = node(NodeType::SimpleTableWriter, obj(vec![("table", text("t")), ("columns", JsonValue::Array(vec![]))]), None);
    assert!(matches!(plan_table_write(&no_cols, &ctx, &vec![]), Err(NodeError::BadNode(_))));
    let unicode = node(NodeType::SimpleTableWriter, obj(vec![("table", text("é_1")), ("columns", JsonValue::Array(vec![text("a")]))]), Some(&["2", "3"]));
    assert!(matches!(plan_table_write(&unicode, &ctx, &vec![]), Err(NodeError::ValidationError(_))));
    let two_pins = node(NodeType::SimpleTableWriter, obj(vec![("table", text("é_1")), ("columns", JsonValue::Array(vec![text("a"), text("b")]))]), Some(&["2", "{\"x\": 1}"]));
    let scripts = vec![("2".to_string(), Ok(JsonValue::Int(2)))];
    let p = plan_table_write(&two_pins, &ctx, &scripts).ok().unwrap();
    assert!(matches!(p.values[0], JsonValue::Int(2)));
    assert!(matches!(p.values[1], JsonValue::Object(_)));
    assert_eq!(p.insert_sql, "INSERT INTO é_1 (a, b) VALUES (?, ?)");
}

#[test]
fn reader_drops_unsafe_where() {
    let n = node(NodeType::SimpleTableReader, obj(vec![("table", text("grades")), ("where", text("score > 70; DROP TABLE x"))]), None);
    let (sql, t) = plan_table_read(&n).ok().unwrap();
    assert_eq!(sql, "SELECT * FROM grades ORDER BY id DESC LIMIT 100");
    assert_eq!(t, "grades");
    let quoted = node(NodeType::SimpleTableReader, obj(vec![("table", text("g")), ("where", text("name = 'x'"))]), None);
    assert_eq!(plan_table_read(&quoted).ok().unwrap().0, "SELECT * FROM g ORDER BY id DESC LIMIT 100");
}

#[test]
fn reader_keeps_safe_where_and_limit() {
    let n = node(
        NodeType::SimpleTableReader,
        obj(vec![("table", text("grades")), ("where", text("score > 70")), ("limit", JsonValue::Int(5))]),
        None,
    );
    assert_eq!(plan_table_read(&n).ok().unwrap().0, "SELECT * FROM grades WHERE score > 70 ORDER BY id DESC LIMIT 5");
    let neg = node(NodeType::SimpleTableReader, obj(vec![("table", text("g")), ("limit", JsonValue::Int(-1))]), None);
    assert_eq!(plan_table_read(&neg).ok().unwrap().0, "SELECT * FROM g ORDER BY id DESC LIMIT 100");
    let bad = node(NodeType::SimpleTableReader, obj(vec![("table", text("a b"))]), None);
    assert!(matches!(plan_table_read(&bad), Err(NodeError::ValidationError(_))));
}

#[test]
fn read_and_query_results() {
    let rows = vec![obj(vec![("id", JsonValue::Int(1))]), obj(vec![("id", JsonValue::Int(2))])];
    let r = complete_table_read("g".to_string(), rows, vec![]);
    assert!(matches!(field(&r.data[0], "count"), JsonValue::Int(2)));
    let single = complete_table_query("posts".to_string(), vec![obj(vec![("slug", text("hello"))])], vec![]);
    assert!(matches!(field(&single.data[0], "slug"), JsonValue::Str(s) if s == "hello"));
    let none = complete_table_query("posts".to_string(), vec![], vec![]);
    assert!(matches!(field(&none.data[0], "count"), JsonValue::Int(0)));
    assert!(matches!(field(&none.data[0], "table"), JsonValue::Str(s) if s == "posts"));
}

#[test]
fn http_plan_methods_and_bodies() {
    let ctx = ctx_with(obj(vec![("payload", obj(vec![("a", JsonValue::Int(1))]))]));
    let get = node(NodeType::HTTPClient, obj(vec![("url", text("http://x"))]), None);
    let req = plan_http(&get, &ctx, &vec![]).ok().unwrap();
    assert_eq!(req.method, "GET");
    assert!(matches!(req.body, HttpBody::Empty));
    let post = node(
        NodeType::HTTPClient,
        obj(vec![("url", text("http://x")), ("method", text("post")), ("headers", obj(vec![("X-A", text("1")), ("X-N", JsonValue::Int(2))]))]),
        Some(&["$json.payload"]),
    );
    let req = plan_http(&post, &ctx, &vec![]).ok().unwrap();
    assert_eq!(req.method, "POST");
    assert!(matches!(req.body, HttpBody::Json(_)));
    assert_eq!(req.headers, vec![("X-A".to_string(), "1".to_string()), ("Content-Type".to_string(), "application/json".to_string())]);
    let text_body = node(NodeType::HTTPClient, obj(vec![("url", text("http://x")), ("method", text("PUT"))]), Some(&["hello: world"]));
    let req = plan_http(&text_body, &ctx, &vec![]).ok().unwrap();
    assert!(matches!(req.body, HttpBody::Text(ref t) if t == "hello: world"));
    let get_with_pin = node(NodeType::HTTPClient, obj(vec![("url", text("http://x"))]), Some(&["$json.payload"]));
    assert!(matches!(plan_http(&get_with_pin, &ctx, &vec![]).ok().unwrap().body, HttpBody::Empty));
    let bad = node(NodeType::HTTPClient, obj(vec![("url", text("http://x")), ("method", text("TRACE"))]), None);
    assert!(matches!(plan_http(&bad, &ctx, &vec![]), Err(NodeError::BadNode(_))));
    let no_url = node(NodeType::HTTPClient, obj(vec![]), None);
    assert!(matches!(plan_http(&no_url, &ctx, &vec![]), Err(NodeError::BadNode(_))));
}

#[test]
fn http_response_record() {
    let ok = complete_http(200, vec![("content-type".to_string(), "application/json".to_string())], "{\"a\": 1}".to_string(), vec![]);
    assert!(ok.should_continue);
    assert!(matches!(field(&ok.data[0], "data"), JsonValue::Object(_)));
    assert!(matches!(field(&ok.data[0], "success"), JsonValue::Bool(true)));
    let missing = complete_http(404, vec![], "not found".to_string(), vec![]);
    assert!(!missing.should_continue);
    assert!(matches!(field(&missing.data[0], "data"), JsonValue::Str(s) if s == "not found"));
    assert!(matches!(field(&missing.data[0], "status"), JsonValue::Int(404)));
}
