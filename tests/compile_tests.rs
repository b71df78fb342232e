use mechaway::json::JsonValue;
use mechaway::workflow::{compile_workflow, CompileError, Edge, Node, NodeType, Workflow};

fn obj(pairs: Vec<(&str, JsonValue)>) -> JsonValue {
    JsonValue::Object(pairs.into_iter().map(|(k, v)| (k.to_string(), v)).collect())
}

fn text(s: &str) -> JsonValue {
    JsonValue::Str(s.to_string())
}

fn node(id: &str, t: NodeType, params: JsonValue) -> Node {
    Node { id: id.to_string(), node_type: t, params, inputs: None, outputs: None, secrets: None }
}

fn edge(a: &str, b: &str) -> Edge {
    Edge { from: a.to_string(), to: b.to_string() }
}

fn workflow(nodes: Vec<Node>, edges: Vec<Edge>) -> Workflow {
    Workflow { id: "wf".to_string(), name: "test".to_string(), nodes, edges }
}

#[test]
fn empty_workflow_does_not_compile() {
    let r = compile_workflow(workflow(vec![], vec![]));
    assert!(matches!(r, Err(CompileError::EmptyWorkflow)));
}

#[test]
fn two_node_cycle_is_rejected() {
    let w = workflow(
        vec![
            node("a", NodeType::Webhook, obj(vec![("path", text("/a"))])),
            node("b", NodeType::FunLogic, obj(vec![])),
        ],
        vec![edge("a", "b"), edge("b", "a")],
    );
    assert!(matches!(compile_workflow(w), Err(CompileError::Cycle)));
}

#[test]
fn self_loop_is_a_cycle() {
    let w = workflow(vec![node("a", NodeType::Webhook, obj(vec![]))], vec![edge("a", "a")]);
    assert!(matches!(compile_workflow(w), Err(CompileError::Cycle)));
}

#[test]
fn edge_to_unknown_node_is_rejected() {
    let w = workflow(vec![node("a", NodeType::Webhook, obj(vec![]))], vec![edge("a", "zz")]);
    assert!(matches!(compile_workflow(w), Err(CompileError::UnknownEdgeEndpoint)));
}

#[test]
fn duplicate_node_ids_are_rejected() {
    let w = workflow(
        vec![node("a", NodeType::Webhook, obj(vec![])), node("a", NodeType::FunLogic, obj(vec![]))],
        vec![],
    );
    assert!(matches!(compile_workflow(w), Err(CompileError::DuplicateNodeId)));
}

#[test]
fn workflow_without_entry_is_rejected() {
    let w = workflow(vec![node("a", NodeType::FunLogic, obj(vec![]))], vec![]);
    assert!(matches!(compile_workflow(w), Err(CompileError::NoStartNode)));
}

#[test]
fn compiled_indices_list_paths_and_entries() {
    let w = workflow(
        vec![
            node("h1", NodeType::Webhook, obj(vec![("path", text("/grade"))])),
            node("f", NodeType::FunLogic, obj(vec![])),
            node("c", NodeType::CronTrigger, obj(vec![("schedule", text("*/1 * * * * *"))])),
            node("h2", NodeType::Webhook, obj(vec![("path", text("/pay"))])),
            node("h3", NodeType::Webhook, obj(vec![])),
        ],
        vec![edge("h1", "f"), edge("c", "f")],
    );
    let c = compile_workflow(w).ok().unwrap();
    assert_eq!(c.webhook_paths, vec!["/grade".to_string(), "/pay".to_string()]);
    assert_eq!(c.start_node_ids, vec!["h1".to_string(), "c".to_string(), "h2".to_string(), "h3".to_string()]);
    assert_eq!(c.workflow.nodes.len(), 5);
}

#[test]
fn emptiness_is_checked_first() {
    // an empty workflow reports emptiness even with a dangling edge
    let w = workflow(vec![], vec![edge("x", "y")]);
    assert!(matches!(compile_workflow(w), Err(CompileError::EmptyWorkflow)));
}
