use mechaway::api::{
    check_create, check_update, created_response, find_webhook_start_node, normalize_webhook_path,
    registry_status, status_of, updated_response, ApiError,
};
use mechaway::json::JsonValue;
use mechaway::registry::{compile_all, RegistryError, WorkflowRegistry, WorkflowTable};
use mechaway::workflow::{compile_workflow, CompileError, Edge, Node, NodeType, Workflow};

fn obj(pairs: Vec<(&str, JsonValue)>) -> JsonValue {
    JsonValue::Object(pairs.into_iter().map(|(k, v)| (k.to_string(), v)).collect())
}

fn text(s: &str) -> JsonValue {
    JsonValue::Str(s.to_string())
}

fn node(id: &str, t: NodeType, params: JsonValue) -> Node {
    Node { id: id.to_string(), node_type: t, params, inputs: None, outputs: None, secrets: None }
}

fn edge(a: &str, b: &str) -> Edge {
    Edge { from: a.to_string(), to: b.to_string() }
}

fn grading(name: &str) -> Workflow {
    Workflow {
        id: "wf-grading".to_string(),
        name: name.to_string(),
        nodes: vec![
            node("hook", NodeType::Webhook, obj(vec![("path", text("/grade"))])),
            node("logic", NodeType::FunLogic, obj(vec![("script", text("return {score=data[1].score*2}"))])),
            node(
                "store",
                NodeType::SimpleTableWriter,
                obj(vec![("table", text("grades")), ("columns", JsonValue::Array(vec![text("score")]))]),
            ),
        ],
        edges: vec![edge("hook", "logic"), edge("logic", "store")],
    }
}

fn cyclic() -> Workflow {
    Workflow {
        id: "wf-cycle".to_string(),
        name: "cycle".to_string(),
        nodes: vec![node("a", NodeType::Webhook, obj(vec![])), node("b", NodeType::FunLogic, obj(vec![]))],
        edges: vec![edge("a", "b"), edge("b", "a")],
    }
}

#[test]
fn reload_then_get_returns_the_stored_workflow() {
    let reg = WorkflowRegistry::new();
    assert!(reg.reload_workflow("wf-grading", Some(grading("Grading"))).is_ok());
    let c = reg.get_workflow("wf-grading").unwrap();
    assert_eq!(c.workflow.id, "wf-grading");
    assert_eq!(c.workflow.name, "Grading");
    assert_eq!(c.webhook_paths, vec!["/grade".to_string()]);
    assert_eq!(reg.list_workflow_ids(), vec!["wf-grading".to_string()]);
    assert_eq!(reg.get_webhook_routes(), vec![("/grade".to_string(), "wf-grading".to_string())]);
}

#[test]
fn reload_twice_gives_the_same_snapshot() {
    let reg = WorkflowRegistry::new();
    assert!(reg.reload_workflow("wf-grading", Some(grading("Grading"))).is_ok());
    assert!(reg.reload_workflow("wf-grading", Some(grading("Grading"))).is_ok());
    assert_eq!(reg.snapshot().len(), 1);
    assert_eq!(reg.get_all_workflows().len(), 1);
    assert!(reg.reload_workflow("wf-grading", Some(grading("Renamed"))).is_ok());
    assert_eq!(reg.get_workflow("wf-grading").unwrap().workflow.name, "Renamed");
}

#[test]
fn reload_of_missing_or_invalid_workflow_fails() {
    let reg = WorkflowRegistry::new();
    assert!(matches!(reg.reload_workflow("x", None), Err(RegistryError::NotFound)));
    let r = reg.reload_workflow("wf-cycle", Some(cyclic()));
    assert!(matches!(r, Err(RegistryError::Compile(CompileError::Cycle))));
    assert_eq!(status_of(registry_status(r.err().unwrap())), 500);
    assert!(reg.get_workflow("wf-cycle").is_none());
}

#[test]
fn remove_drops_the_workflow() {
    let reg = WorkflowRegistry::new();
    assert!(reg.reload_workflow("wf-grading", Some(grading("Grading"))).is_ok());
    reg.remove_workflow("wf-grading");
    assert!(reg.get_workflow("wf-grading").is_none());
    reg.remove_workflow("wf-grading");
    assert_eq!(reg.snapshot().len(), 0);
}

#[test]
fn init_from_storage_compiles_all_or_nothing() {
    let reg = WorkflowRegistry::new();
    assert!(reg.init_from_storage(vec![grading("Grading")]).is_ok());
    assert!(reg.get_workflow("wf-grading").is_some());
    assert!(matches!(reg.init_from_storage(vec![grading("G2"), cyclic()]), Err(RegistryError::Compile(CompileError::Cycle))));
    assert_eq!(reg.get_workflow("wf-grading").unwrap().workflow.name, "Grading");
    assert!(compile_all(vec![]).is_ok());
}

#[test]
fn table_insert_and_remove() {
    let mut t = WorkflowTable::new();
    assert!(t.reload(Some(grading("A"))).is_ok());
    let c = compile_workflow(grading("B")).ok().unwrap();
    t.insert(c);
    assert_eq!(t.len(), 1);
    assert_eq!(t.get("wf-grading").unwrap().workflow.name, "B");
    t.remove("wf-grading");
    assert!(t.get("wf-grading").is_none());
}

#[test]
fn webhook_path_lookup() {
    let c = compile_workflow(grading("Grading")).ok().unwrap();
    assert_eq!(normalize_webhook_path("grade"), "/grade");
    assert_eq!(normalize_webhook_path("/grade"), "/grade");
    assert_eq!(find_webhook_start_node(&c, &normalize_webhook_path("grade")), Some("hook".to_string()));
    assert_eq!(find_webhook_start_node(&c, &normalize_webhook_path("other")), None);
    assert_eq!(status_of(ApiError::NotFound), 404);
}

#[test]
fn management_request_checks() {
    let mut w = grading("Grading");
    assert!(check_create(&w).is_ok());
    let resp = created_response(&w);
    assert_eq!(resp.message, "Workflow 'Grading' created successfully");
    assert_eq!(updated_response(&w).message, "Workflow 'Grading' updated successfully");
    w.id = String::new();
    assert!(matches!(check_create(&w), Err(ApiError::BadRequest)));
    let fixed = check_update("wf-new", w).ok().unwrap();
    assert_eq!(fixed.id, "wf-new");
    let unnamed = grading("");
    assert!(matches!(check_update("x", unnamed), Err(ApiError::BadRequest)));
    assert_eq!(status_of(ApiError::Conflict), 409);
    assert_eq!(status_of(ApiError::BadRequest), 400);
    assert_eq!(status_of(ApiError::ExecutionFailed), 422);
}

#[test]
fn reload_under_another_identifier_is_not_found() {
    let reg = WorkflowRegistry::new();
    assert!(matches!(reg.reload_workflow("other-id", Some(grading("Grading"))), Err(RegistryError::NotFound)));
    assert!(reg.get_workflow("wf-grading").is_none());
}

#[test]
fn registry_returns_the_tables_it_publishes() {
    let reg = WorkflowRegistry::new();
    let loaded = reg.init_from_storage(vec![grading("A"), grading("B")]).ok().unwrap();
    assert_eq!(loaded.len(), 1);
    assert_eq!(loaded.get("wf-grading").unwrap().workflow.name, "B");
    let after = reg.remove_workflow("wf-grading");
    assert!(after.get("wf-grading").is_none());
    let again = reg.remove_workflow("wf-grading");
    assert_eq!(again.len(), 0);
}
