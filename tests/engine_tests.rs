use mechaway::context::{ExecutionContext, ExecutionResult, NodeError};
use mechaway::engine::{start_run, EngineError};
use mechaway::json::JsonValue;
use mechaway::workflow::{compile_workflow, CompiledWorkflow, Edge, Node, NodeType, Workflow};

fn obj(pairs: Vec<(&str, JsonValue)>) -> JsonValue {
    JsonValue::Object(pairs.into_iter().map(|(k, v)| (k.to_string(), v)).collect())
}

fn node(id: &str, t: NodeType) -> Node {
    Node { id: id.to_string(), node_type: t, params: obj(vec![]), inputs: None, outputs: None, secrets: None }
}

fn edge(a: &str, b: &str) -> Edge {
    Edge { from: a.to_string(), to: b.to_string() }
}

fn compiled(nodes: Vec<Node>, edges: Vec<Edge>) -> CompiledWorkflow {
    compile_workflow(Workflow { id: "wf".to_string(), name: "n".to_string(), nodes, edges }).ok().unwrap()
}

fn ctx() -> ExecutionContext {
    ExecutionContext::from_webhook_data("wf".to_string(), JsonValue::Int(1), "default".to_string())
}

fn ids(c: &CompiledWorkflow, plan: &[usize]) -> Vec<String> {
    plan.iter().map(|&i| c.workflow.nodes[i].id.clone()).collect()
}

#[test]
fn webhook_without_downstream_is_empty_flow() {
    let c = compiled(vec![node("w", NodeType::Webhook)], vec![]);
    assert!(matches!(start_run(&c, "w", &ctx()), Err(EngineError::EmptyFlow)));
}

#[test]
fn unknown_start_is_reported() {
    let c = compiled(vec![node("w", NodeType::Webhook), node("f", NodeType::FunLogic)], vec![edge("w", "f")]);
    assert!(matches!(start_run(&c, "nope", &ctx()), Err(EngineError::UnknownStart)));
}

#[test]
fn plan_is_reachable_topological_and_skips_triggers() {
    // w -> a -> b ; w -> c ; x -> d (unreachable) ; b -> m (MQTT trigger)
    let c = compiled(
        vec![
            node("b", NodeType::FunLogic),
            node("w", NodeType::Webhook),
            node("a", NodeType::FunLogic),
            node("c", NodeType::FunLogic),
            node("x", NodeType::CronTrigger),
            node("d", NodeType::FunLogic),
            node("m", NodeType::MQTTTrigger),
        ],
        vec![edge("w", "a"), edge("a", "b"), edge("w", "c"), edge("x", "d"), edge("b", "m")],
    );
    let run = start_run(&c, "w", &ctx()).ok().unwrap();
    let names = ids(&c, &run.plan);
    assert_eq!(names.len(), 3);
    assert!(names.contains(&"a".to_string()) && names.contains(&"b".to_string()) && names.contains(&"c".to_string()));
    let pa = names.iter().position(|n| n == "a").unwrap();
    let pb = names.iter().position(|n| n == "b").unwrap();
    assert!(pa < pb);
    assert_eq!(run.plan_ids, names);
}

#[test]
fn run_steps_through_results_and_stops_on_halt() {
    let c = compiled(
        vec![node("w", NodeType::Webhook), node("a", NodeType::FunLogic), node("b", NodeType::FunLogic)],
        vec![edge("w", "a"), edge("a", "b")],
    );
    let base = ctx();
    let mut run = start_run(&c, "w", &base).ok().unwrap();
    let first = run.next_node().unwrap();
    assert_eq!(c.workflow.nodes[first].id, "a");
    let node_ctx = run.node_context(&base);
    assert_eq!(node_ctx.data.len(), 1);
    let halt = ExecutionResult { data: vec![JsonValue::Int(7)], metadata: vec![], should_continue: false };
    assert!(run.record(Ok(halt)).is_ok());
    assert!(run.next_node().is_none());
    let r = run.finish();
    assert!(!r.should_continue);
    assert!(matches!(r.data[0], JsonValue::Int(7)));
}

#[test]
fn node_failure_names_the_node() {
    let c = compiled(vec![node("w", NodeType::Webhook), node("a", NodeType::FunLogic)], vec![edge("w", "a")]);
    let mut run = start_run(&c, "w", &ctx()).ok().unwrap();
    let _ = run.next_node().unwrap();
    match run.record(Err(NodeError::ScriptError("boom".to_string()))) {
        Err(EngineError::NodeFailed(id, NodeError::ScriptError(m))) => {
            assert_eq!(id, "a");
            assert_eq!(m, "boom");
        }
        _ => panic!("expected a node failure"),
    }
}

#[test]
fn starting_at_a_processing_node_runs_it() {
    let c = compiled(
        vec![node("w", NodeType::Webhook), node("a", NodeType::FunLogic), node("b", NodeType::FunLogic)],
        vec![edge("w", "a"), edge("a", "b")],
    );
    let run = start_run(&c, "a", &ctx()).ok().unwrap();
    assert_eq!(ids(&c, &run.plan), vec!["a".to_string(), "b".to_string()]);
}
