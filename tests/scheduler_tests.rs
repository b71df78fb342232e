use mechaway::json::JsonValue;
use mechaway::registry::WorkflowRegistry;
use mechaway::scheduler::{cron_jobs_of, cron_tick, CronJob, CronJobTable, SchedulerError};
use mechaway::workflow::{Edge, Node, NodeType, Workflow};

fn obj(pairs: Vec<(&str, JsonValue)>) -> JsonValue {
    JsonValue::Object(pairs.into_iter().map(|(k, v)| (k.to_string(), v)).collect())
}

fn text(s: &str) -> JsonValue {
    JsonValue::Str(s.to_string())
}

fn node(id: &str, t: NodeType, params: JsonValue) -> Node {
    Node { id: id.to_string(), node_type: t, params, inputs: None, outputs: None, secrets: None }
}

fn cron_workflow(id: &str) -> Workflow {
    Workflow {
        id: id.to_string(),
        name: "cron".to_string(),
        nodes: vec![
            node("tick", NodeType::CronTrigger, obj(vec![("schedule", text("*/1 * * * * *"))])),
            node("work", NodeType::FunLogic, obj(vec![("script", text("return 1"))])),
        ],
        edges: vec![Edge { from: "tick".to_string(), to: "work".to_string() }],
    }
}

fn keys(t: &CronJobTable) -> Vec<(String, String, u128)> {
    t.jobs.iter().map(|j: &CronJob| (j.workflow_id.clone(), j.node_id.clone(), j.handle)).collect()
}

#[test]
fn cron_specs_list_schedules() {
    let specs = cron_jobs_of(&cron_workflow("wf")).ok().unwrap();
    assert_eq!(specs.len(), 1);
    assert_eq!(specs[0].node_id, "tick");
    assert_eq!(specs[0].schedule, "*/1 * * * * *");
    let mut w = cron_workflow("wf");
    w.nodes[0].params = obj(vec![]);
    assert!(matches!(cron_jobs_of(&w), Err(SchedulerError::MissingSchedule)));
}

#[test]
fn add_or_update_replaces_handles() {
    let mut t = CronJobTable::new();
    let specs = cron_jobs_of(&cron_workflow("wf")).ok().unwrap();
    assert!(t.add_or_update("wf", &specs, &vec![1]).is_empty());
    let replaced = t.add_or_update("wf", &specs, &vec![2]);
    assert_eq!(replaced, vec![1]);
    assert_eq!(keys(&t), vec![("wf".to_string(), "tick".to_string(), 2)]);
}

#[test]
fn add_or_update_then_remove_restores_the_table() {
    let mut t = CronJobTable::new();
    let other = cron_jobs_of(&cron_workflow("other")).ok().unwrap();
    t.add_or_update("other", &other, &vec![7]);
    let before = keys(&t);
    let specs = cron_jobs_of(&cron_workflow("wf")).ok().unwrap();
    t.add_or_update("wf", &specs, &vec![9]);
    assert_eq!(t.jobs.len(), 2);
    let removed = t.remove_workflow("wf");
    assert_eq!(removed, vec![9]);
    assert_eq!(keys(&t), before);
}

#[test]
fn workflow_without_cron_nodes_loses_its_jobs() {
    let mut t = CronJobTable::new();
    let specs = cron_jobs_of(&cron_workflow("wf")).ok().unwrap();
    t.add_or_update("wf", &specs, &vec![3]);
    let gone = t.add_or_update("wf", &vec![], &vec![]);
    assert_eq!(gone, vec![3]);
    assert!(t.jobs.is_empty());
    t.add_or_update("wf", &specs, &vec![4]);
    assert_eq!(t.clear(), vec![4]);
    assert!(t.jobs.is_empty());
}

#[test]
fn removing_a_workflow_keeps_ids_that_share_its_prefix() {
    let mut t = CronJobTable::new();
    let a = cron_jobs_of(&cron_workflow("wf-1")).ok().unwrap();
    let b = cron_jobs_of(&cron_workflow("wf-10")).ok().unwrap();
    t.add_or_update("wf-1", &a, &vec![1]);
    t.add_or_update("wf-10", &b, &vec![2]);
    t.remove_workflow("wf-1");
    assert_eq!(keys(&t), vec![("wf-10".to_string(), "tick".to_string(), 2)]);
}

#[test]
fn tick_after_delete_is_skipped() {
    let reg = WorkflowRegistry::new();
    assert!(reg.reload_workflow("wf-cron", Some(cron_workflow("wf-cron"))).is_ok());
    let (c, ctx) = cron_tick(&reg.snapshot(), "wf-cron", "tick", "default").unwrap();
    assert_eq!(c.workflow.id, "wf-cron");
    assert_eq!(ctx.project_slug, "default");
    assert!(ctx.metadata.iter().any(|(k, v)| k == "trigger_type" && matches!(v, JsonValue::Str(s) if s == "cron")));
    reg.remove_workflow("wf-cron");
    assert!(cron_tick(&reg.snapshot(), "wf-cron", "tick", "default").is_none());
}

#[test]
fn reconcile_drops_handles_of_former_cron_nodes() {
    let mut t = CronJobTable::new();
    let a = cron_jobs_of(&cron_workflow("wf")).ok().unwrap();
    t.add_or_update("wf", &a, &vec![1]);
    let mut w = cron_workflow("wf");
    w.nodes[0].id = "other".to_string();
    w.edges[0].from = "other".to_string();
    let b = cron_jobs_of(&w).ok().unwrap();
    let gone = t.add_or_update("wf", &b, &vec![2]);
    assert_eq!(gone, vec![1]);
    assert_eq!(keys(&t), vec![("wf".to_string(), "other".to_string(), 2)]);
}
