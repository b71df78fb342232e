//! The decisions behind the HTTP endpoints: request checks, webhook routing
//! and the status codes errors map to. The transport itself lives outside.
use vstd::prelude::*;
use vstd::string::*;
use crate::engine::EngineError;
use crate::registry::RegistryError;
use crate::text::{has_prefix, push_char, same_text};
use crate::workflow::{CompiledWorkflow, NodeType, Workflow, NodeView};

verus! {

/// The body of a successful create or update.
pub struct WorkflowResponse {
    pub id: String,
    pub message: String,
}

/// Listing metadata of a stored workflow.
pub struct WorkflowMetadata {
    pub id: String,
    pub name: String,
    pub created_at: String,
    pub updated_at: String,
}

/// Why a management or webhook request failed.
#[derive(Clone, Copy, Debug, PartialEq, Eq, Structural)]
pub enum ApiError {
    /// Malformed input: invalid JSON, an empty required field.
    BadRequest,
    /// No such workflow, webhook path or start node.
    NotFound,
    /// A workflow with that identifier already exists.
    Conflict,
    /// The execution failed.
    ExecutionFailed,
    /// The store, the registry or the scheduler failed.
    Internal,
}

/// The HTTP status each error maps to.
pub open spec fn spec_status(e: ApiError) -> u16 {
    match e {
        ApiError::BadRequest => 400,
        ApiError::NotFound => 404,
        ApiError::Conflict => 409,
        ApiError::ExecutionFailed => 422,
        ApiError::Internal => 500,
    }
}

pub fn status_of(e: ApiError) -> (r: u16)
    ensures
        r == spec_status(e),
{
    match e {
        ApiError::BadRequest => 400,
        ApiError::NotFound => 404,
        ApiError::Conflict => 409,
        ApiError::ExecutionFailed => 422,
        ApiError::Internal => 500,
    }
}

/// A create request needs a non-empty identifier and name.
pub fn check_create(workflow: &Workflow) -> (r: Result<(), ApiError>)
    ensures
        r is Ok <==> (workflow.id@.len() > 0 && workflow.name@.len() > 0),
        r is Err ==> r == Err::<(), ApiError>(ApiError::BadRequest),
{
    if workflow.id.as_str().is_empty() || workflow.name.as_str().is_empty() {
        Err(ApiError::BadRequest)
    } else {
        Ok(())
    }
}

/// An update request takes its identifier from the URL and needs a non-empty name.
pub fn check_update(id: &str, workflow: Workflow) -> (r: Result<Workflow, ApiError>)
    ensures
        match r {
            Ok(w) => workflow.name@.len() > 0 && w.id@ == id@ && w.name == workflow.name && w.nodes == workflow.nodes
                && w.edges == workflow.edges,
            Err(e) => workflow.name@.len() == 0 && e == ApiError::BadRequest,
        },
{
    if workflow.name.as_str().is_empty() {
        return Err(ApiError::BadRequest);
    }
    let mut w = workflow;
    w.id = String::from_str(id);
    Ok(w)
}

/// The response to a successful create: `Workflow '<name>' created successfully`.
pub fn created_response(workflow: &Workflow) -> (r: WorkflowResponse)
    ensures
        r.id@ == workflow.id@,
        r.message@ == "Workflow '"@ + workflow.name@ + "' created successfully"@,
{
    let mut m = String::from_str("Workflow '");
    m.append(workflow.name.as_str());
    m.append("' created successfully");
    WorkflowResponse { id: workflow.id.clone(), message: m }
}

/// The response to a successful update: `Workflow '<name>' updated successfully`.
pub fn updated_response(workflow: &Workflow) -> (r: WorkflowResponse)
    ensures
        r.id@ == workflow.id@,
        r.message@ == "Workflow '"@ + workflow.name@ + "' updated successfully"@,
{
    let mut m = String::from_str("Workflow '");
    m.append(workflow.name.as_str());
    m.append("' updated successfully");
    WorkflowResponse { id: workflow.id.clone(), message: m }
}

/// The path of a webhook request, with a leading `/` added when missing.
pub open spec fn normalized_path(p: Seq<char>) -> Seq<char> {
    if p.len() > 0 && p[0] == '/' {
        p
    } else {
        seq!['/'] + p
    }
}

pub fn normalize_webhook_path(path: &str) -> (r: String)
    ensures
        r@ == normalized_path(path@),
{
    proof {
        reveal_strlit("/");
        assert("/"@ =~= seq!['/']);
    }
    if has_prefix(path, "/") {
        assert(path@.subrange(0, 1)[0] == path@[0]);
        String::from_str(path)
    } else {
        proof {
            if path@.len() > 0 && path@[0] == '/' {
                assert(path@.subrange(0, 1) =~= seq!['/']);
            }
        }
        let mut s = String::new();
        push_char(&mut s, '/');
        s.append(path);
        assert(s@ =~= seq!['/'] + path@);
        s
    }
}

/// The first `Webhook` node whose `path` parameter is `path`.
pub open spec fn webhook_node_for(nodes: Seq<NodeView>, path: Seq<char>) -> Option<int> {
    if exists|i: int|
        0 <= i < nodes.len() && nodes[i].node_type == NodeType::Webhook && nodes[i].params.text_field("path"@)
            == Some(path) {
        Some(
            choose|i: int|
                0 <= i < nodes.len() && nodes[i].node_type == NodeType::Webhook && nodes[i].params.text_field(
                    "path"@,
                ) == Some(path) && forall|j: int|
                    0 <= j < i ==> !(nodes[j].node_type == NodeType::Webhook && nodes[j].params.text_field("path"@)
                        == Some(path)),
        )
    } else {
        None
    }
}

/// The identifier of the webhook node that a request on `webhook_path` starts at.
#[verifier::rlimit(80)]
pub fn find_webhook_start_node(compiled: &CompiledWorkflow, webhook_path: &str) -> (r: Option<String>)
    ensures
        match r {
            Some(id) => webhook_node_for(compiled.workflow@.nodes, webhook_path@) matches Some(i)
                && id@ == compiled.workflow@.nodes[i].id,
            None => webhook_node_for(compiled.workflow@.nodes, webhook_path@) is None,
        },
{
    let nodes = &compiled.workflow.nodes;
    let ghost nv = compiled.workflow@.nodes;
    let mut i: usize = 0;
    while i < nodes.len()
        invariant
            nv == compiled.workflow@.nodes,
            nv == nodes@.map_values(|n: crate::workflow::Node| n@),
            i <= nodes.len(),
            forall|j: int|
                0 <= j < i ==> !(nv[j].node_type == NodeType::Webhook && nv[j].params.text_field("path"@) == Some(
                    webhook_path@,
                )),
        decreases nodes.len() - i,
    {
        assert(nv[i as int] == nodes@[i as int]@);
        if nodes[i].node_type == NodeType::Webhook {
            match nodes[i].params.text_field("path") {
                Some(p) => {
                    if same_text(p.as_str(), webhook_path) {
                        proof {
                            let c = choose|c: int|
                                0 <= c < nv.len() && nv[c].node_type == NodeType::Webhook && nv[c].params.text_field(
                                    "path"@,
                                ) == Some(webhook_path@) && forall|j: int|
                                    0 <= j < c ==> !(nv[j].node_type == NodeType::Webhook && nv[j].params.text_field(
                                        "path"@,
                                    ) == Some(webhook_path@));
                            if c < i {
                            }
                            if i < c {
                                assert(!(nv[i as int].node_type == NodeType::Webhook && nv[i as int].params.text_field(
                                    "path"@,
                                ) == Some(webhook_path@)));
                            }
                        }
                        return Some(nodes[i].id.clone());
                    }
                },
                None => {},
            }
        }
        i = i + 1;
    }
    None
}

/// What a management mutation answers when the registry fails.
pub fn registry_status(e: RegistryError) -> (r: ApiError)
    ensures
        r == ApiError::Internal,
{
    ApiError::Internal
}

/// What the webhook endpoint answers when an execution fails.
pub fn execution_status(e: &EngineError) -> (r: ApiError)
    ensures
        r == ApiError::ExecutionFailed,
{
    ApiError::ExecutionFailed
}

} // verus!
