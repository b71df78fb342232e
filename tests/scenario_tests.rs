use mechaway::api::{execution_status, find_webhook_start_node, normalize_webhook_path, status_of};
use mechaway::context::{ExecutionContext, NodeError};
use mechaway::engine::{start_run, EngineError};
use mechaway::executor::{complete_fun_logic, complete_table_write, prepare_node, NodeAction};
use mechaway::json::{parse_json, JsonValue};
use mechaway::registry::WorkflowRegistry;
use mechaway::workflow::{Edge, Node, NodeType, Workflow};

fn obj(pairs: Vec<(&str, JsonValue)>) -> JsonValue {
    JsonValue::Object(pairs.into_iter().map(|(k, v)| (k.to_string(), v)).collect())
}

fn text(s: &str) -> JsonValue {
    JsonValue::Str(s.to_string())
}

fn node(id: &str, t: NodeType, params: JsonValue) -> Node {
    Node { id: id.to_string(), node_type: t, params, inputs: None, outputs: None, secrets: None }
}

fn edge(a: &str, b: &str) -> Edge {
    Edge { from: a.to_string(), to: b.to_string() }
}

fn field<'a>(v: &'a JsonValue, k: &str) -> &'a JsonValue {
    match v {
        JsonValue::Object(es) => &es.iter().find(|(key, _)| key == k).unwrap().1,
        _ => panic!("not an object"),
    }
}

#[test]
fn grade_workflow_doubles_and_stores_the_score() {
    let reg = WorkflowRegistry::new();
    let wf = Workflow {
        id: "wf-grading".to_string(),
        name: "Grading".to_string(),
        nodes: vec![
            node("hook", NodeType::Webhook, obj(vec![("path", text("/grade"))])),
            node("logic", NodeType::FunLogic, obj(vec![("script", text("return {score=data[1].score*2}"))])),
            node(
                "store",
                NodeType::SimpleTableWriter,
                obj(vec![("table", text("grades")), ("columns", JsonValue::Array(vec![text("score")]))]),
            ),
        ],
        edges: vec![edge("hook", "logic"), edge("logic", "store")],
    };
    assert!(reg.reload_workflow("wf-grading", Some(wf)).is_ok());
    let compiled = reg.get_workflow("wf-grading").unwrap();
    let start = find_webhook_start_node(&compiled, &normalize_webhook_path("grade")).unwrap();
    let body = parse_json("{\"score\":40}").unwrap();
    let base = ExecutionContext::from_webhook_data("wf-grading".to_string(), body, "default".to_string());
    let mut run = start_run(&compiled, &start, &base).ok().unwrap();

    // the script node: the sandbox returns {score = 80}
    let pos = run.next_node().unwrap();
    let mut ctx = run.node_context(&base);
    let action = prepare_node(&compiled.workflow.nodes[pos], &mut ctx, &vec![], &vec![]).ok().unwrap();
    match action {
        NodeAction::RunScript(setup, _) => assert_eq!(setup, "data = {{[\"score\"] = 40}}"),
        _ => panic!("expected a script"),
    }
    assert!(run.record(Ok(complete_fun_logic(obj(vec![("score", JsonValue::Int(80))]), ctx.metadata))).is_ok());

    // the table writer: the row is inserted with id 1
    let pos = run.next_node().unwrap();
    let mut ctx = run.node_context(&base);
    let write = match prepare_node(&compiled.workflow.nodes[pos], &mut ctx, &vec![], &vec![]).ok().unwrap() {
        NodeAction::WriteRow(w) => w,
        _ => panic!("expected a table write"),
    };
    assert_eq!(write.insert_sql, "INSERT INTO grades (score) VALUES (?)");
    assert!(run.record(Ok(complete_table_write(write, 1, 1, ctx.metadata))).is_ok());
    assert!(run.next_node().is_none());

    let result = run.finish();
    assert_eq!(result.data.len(), 1);
    let rec = &result.data[0];
    assert!(matches!(field(rec, "_success"), JsonValue::Bool(true)));
    let inserted = field(rec, "inserted_data");
    assert!(matches!(field(inserted, "table"), JsonValue::Str(s) if s == "grades"));
    assert!(matches!(field(inserted, "columns"), JsonValue::Array(c) if matches!(&c[0], JsonValue::Str(s) if s == "score")));
    assert!(matches!(field(inserted, "values"), JsonValue::Array(v) if matches!(v[0], JsonValue::Int(80))));
}

#[test]
fn pg_query_without_secrets_fails_the_execution_with_422() {
    let reg = WorkflowRegistry::new();
    let wf = Workflow {
        id: "wf-pg".to_string(),
        name: "pg".to_string(),
        nodes: vec![
            node("hook", NodeType::Webhook, obj(vec![("path", text("/q"))])),
            node("pg", NodeType::PGQuery, obj(vec![("query", text("SELECT 1"))])),
        ],
        edges: vec![edge("hook", "pg")],
    };
    assert!(reg.reload_workflow("wf-pg", Some(wf)).is_ok());
    let compiled = reg.get_workflow("wf-pg").unwrap();
    let base = ExecutionContext::from_webhook_data("wf-pg".to_string(), JsonValue::Null, "default".to_string());
    let mut run = start_run(&compiled, "hook", &base).ok().unwrap();
    let pos = run.next_node().unwrap();
    let mut ctx = run.node_context(&base);
    let outcome = prepare_node(&compiled.workflow.nodes[pos], &mut ctx, &vec![], &vec![]);
    assert!(matches!(outcome, Err(NodeError::MissingSecret(_))));
    let failure = match outcome {
        Err(e) => run.record(Err(e)).err().unwrap(),
        Ok(_) => panic!("expected a failure"),
    };
    assert!(matches!(&failure, EngineError::NodeFailed(id, NodeError::MissingSecret(_)) if id == "pg"));
    assert_eq!(status_of(execution_status(&failure)), 422);
}
