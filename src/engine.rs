//! The DAG engine: which nodes an execution runs, in which order, and the
//! step-by-step state of a run whose node work is done by the caller.
use vstd::prelude::*;
use crate::context::{ExecutionContext, ExecutionResult, NodeError, meta, clone_entries};
use crate::graph::{as_ints, graph_edges, graph_node_count, reachable_from, reaches, topological_order, edges_within};
use crate::json::{clone_values, items_data};
use crate::workflow::{
    build_graph, edges_known, first_index, index_edges, lemma_first_index_bounds, node_ids,
    position_of, workflow_acyclic, CompiledWorkflow, GraphError, Node, WorkflowView,
};

verus! {

/// Why an execution did not complete.
pub enum EngineError {
    /// More nodes or edges than a graph can index.
    TooLarge,
    /// An edge names a node that does not exist.
    UnknownEdgeEndpoint,
    /// The workflow's edges form a cycle.
    CycleError,
    /// The entry node is not in the workflow.
    UnknownStart,
    /// The entry is a trigger and nothing that can run follows it.
    EmptyFlow,
    /// The node with this identifier failed.
    NodeFailed(String, NodeError),
}

/// Node `v` of `w` runs in an execution that enters at node `s`: it is
/// reachable from `s` and is not a trigger.
pub open spec fn runnable(w: WorkflowView, s: int, v: int) -> bool {
    &&& 0 <= v < w.nodes.len()
    &&& reaches(index_edges(w), s, v)
    &&& !w.nodes[v].node_type.spec_is_trigger()
}

/// `plan` is a topological order of the runnable nodes: each once, and every
/// edge between two of them going forward.
pub open spec fn is_run_order(plan: Seq<int>, w: WorkflowView, s: int) -> bool {
    &&& forall|k: int| 0 <= k < plan.len() ==> runnable(w, s, #[trigger] plan[k])
    &&& forall|v: int| runnable(w, s, v) ==> exists|k: int| 0 <= k < plan.len() && plan[k] == v
    &&& forall|k1: int, k2: int| 0 <= k1 < k2 < plan.len() ==> plan[k1] != plan[k2]
    &&& forall|e: int, k1: int, k2: int|
        #![trigger index_edges(w)[e], plan[k1], plan[k2]]
        0 <= e < index_edges(w).len() && 0 <= k1 < plan.len() && 0 <= k2 < plan.len() && plan[k1]
            == index_edges(w)[e].0 && plan[k2] == index_edges(w)[e].1 ==> k1 < k2
}

/// Why an execution of `w` entering at `start` cannot begin, in the order checked.
pub open spec fn plan_failure(w: WorkflowView, start: Seq<char>) -> Option<EngineError> {
    if w.nodes.len() >= u32::MAX || w.edges.len() >= u32::MAX {
        Some(EngineError::TooLarge)
    } else if !edges_known(w) {
        Some(EngineError::UnknownEdgeEndpoint)
    } else if !workflow_acyclic(w) {
        Some(EngineError::CycleError)
    } else if first_index(node_ids(w.nodes), start) is None {
        Some(EngineError::UnknownStart)
    } else if w.nodes[first_index(node_ids(w.nodes), start).unwrap()].node_type.spec_is_trigger()
        && !(exists|v: int| runnable(w, first_index(node_ids(w.nodes), start).unwrap(), v)) {
        Some(EngineError::EmptyFlow)
    } else {
        None
    }
}

/// An execution in progress: the nodes to run, how many have run, and the
/// latest result.
pub struct ExecutionRun {
    /// Positions, in the workflow's node list, of the nodes to run, in order.
    pub plan: Vec<usize>,
    /// The identifiers of those nodes.
    pub plan_ids: Vec<String>,
    /// How many nodes of `plan` have run.
    pub step: usize,
    /// The result handed on by the last node that ran.
    pub result: ExecutionResult,
    pub workflow: Ghost<WorkflowView>,
    pub start: Ghost<int>,
}

impl ExecutionRun {
    pub open spec fn wf(&self) -> bool {
        &&& is_run_order(as_ints(self.plan@), self.workflow@, self.start@)
        &&& self.plan_ids@.len() == self.plan@.len()
        &&& forall|k: int| 0 <= k < self.plan@.len() ==> #[trigger] self.plan_ids@[k]@ == self.workflow@.nodes[self.plan@[k] as int].id
        &&& self.step <= self.plan@.len()
    }

    /// The nodes run so far, in order.
    pub open spec fn executed(&self) -> Seq<int> {
        as_ints(self.plan@).subrange(0, self.step as int)
    }
}

proof fn lemma_graph_edges_within(w: WorkflowView)
    requires
        edges_known(w),
    ensures
        edges_within(index_edges(w), w.nodes.len()),
{
    assert forall|e: int| 0 <= e < index_edges(w).len() implies 0 <= #[trigger] index_edges(w)[e].0 < w.nodes.len()
        && 0 <= index_edges(w)[e].1 < w.nodes.len() by {
        assert(first_index(node_ids(w.nodes), w.edges[e].0) is Some);
        lemma_first_index_bounds(node_ids(w.nodes), w.edges[e].0);
        lemma_first_index_bounds(node_ids(w.nodes), w.edges[e].1);
    }
}

/// Plans an execution of `workflow` entering at the node `start_node_id`:
/// the runnable nodes in a topological order, starting from the context's
/// data and metadata.
#[verifier::rlimit(60)]
pub fn start_run(workflow: &CompiledWorkflow, start_node_id: &str, context: &ExecutionContext) -> (r: Result<ExecutionRun, EngineError>)
    ensures
        match r {
            Ok(run) => {
                &&& plan_failure(workflow.workflow@, start_node_id@) is None
                &&& run.wf()
                &&& run.workflow@ == workflow.workflow@
                &&& run.start@ == first_index(node_ids(workflow.workflow@.nodes), start_node_id@).unwrap()
                &&& run.step == 0
                &&& items_data(run.result.data@) == items_data(context.data@)
                &&& meta(run.result.metadata@) == meta(context.metadata@)
                &&& run.result.should_continue
            },
            Err(e) => plan_failure(workflow.workflow@, start_node_id@) == Some(e),
        },
{
    let w = &workflow.workflow;
    let ghost wv = w@;
    let g = match build_graph(w) {
        Ok(g) => g,
        Err(GraphError::TooLarge) => {
            return Err(EngineError::TooLarge);
        },
        Err(GraphError::UnknownEdgeEndpoint) => {
            return Err(EngineError::UnknownEdgeEndpoint);
        },
    };
    let topo = match topological_order(&g) {
        Some(o) => o,
        None => {
            return Err(EngineError::CycleError);
        },
    };
    proof {
        assert(crate::graph::is_topo_order(as_ints(topo@), graph_node_count(g), graph_edges(g)));
    }
    let s = match position_of(&w.nodes, start_node_id) {
        Some(s) => s,
        None => {
            return Err(EngineError::UnknownStart);
        },
    };
    proof {
        lemma_first_index_bounds(node_ids(wv.nodes), start_node_id@);
        lemma_graph_edges_within(wv);
    }
    let reach = reachable_from(&g, s);
    let ghost edges = index_edges(wv);
    let ghost topo_i = as_ints(topo@);
    let ghost n = wv.nodes.len();
    proof {
        assert forall|k: int| 0 <= k < topo@.len() implies #[trigger] topo@[k] < n by {
            assert(topo_i[k] == topo@[k] as int);
        }
    }
    let mut plan: Vec<usize> = Vec::new();
    let mut plan_ids: Vec<String> = Vec::new();
    let ghost mut idx: Seq<int> = Seq::empty();
    let mut i: usize = 0;
    while i < topo.len()
        invariant
            wv == w@,
            n == wv.nodes.len(),
            n == w.nodes.len(),
            reach.len() == n,
            forall|k: int| 0 <= k < topo@.len() ==> #[trigger] topo@[k] < n,
            i <= topo.len(),
            idx.len() == plan@.len(),
            plan_ids@.len() == plan@.len(),
            forall|k: int| 0 <= k < idx.len() ==> 0 <= #[trigger] idx[k] < i && plan@[k] == topo@[idx[k]],
            forall|k1: int, k2: int| 0 <= k1 < k2 < idx.len() ==> idx[k1] < idx[k2],
            forall|k: int| 0 <= k < plan@.len() ==> #[trigger] plan@[k] < n && reach@[plan@[k] as int]
                && !wv.nodes[plan@[k] as int].node_type.spec_is_trigger(),
            forall|k: int| 0 <= k < plan@.len() ==> #[trigger] plan_ids@[k]@ == wv.nodes[plan@[k] as int].id,
            forall|j: int| 0 <= j < i && reach@[#[trigger] topo@[j] as int] && !wv.nodes[topo@[j] as int].node_type.spec_is_trigger()
                ==> exists|k: int| 0 <= k < idx.len() && idx[k] == j,
        decreases topo.len() - i,
    {
        let v = topo[i];
        assert(wv.nodes[v as int] == w.nodes@[v as int]@);
        let ghost old_idx = idx;
        if reach[v] && !w.nodes[v].node_type.is_trigger() {
            plan.push(v);
            plan_ids.push(w.nodes[v].id.clone());
            proof {
                idx = idx.push(i as int);
                assert forall|j: int| 0 <= j < i + 1 && reach@[#[trigger] topo@[j] as int] && !wv.nodes[topo@[j] as int].node_type.spec_is_trigger()
                    implies exists|k: int| 0 <= k < idx.len() && idx[k] == j by {
                    if j < i {
                        let k = choose|k: int| 0 <= k < old_idx.len() && old_idx[k] == j;
                        assert(idx[k] == j);
                    } else {
                        assert(idx[idx.len() - 1] == j);
                    }
                }
            }
        }
        i = i + 1;
    }
    let ghost pl = as_ints(plan@);
    proof {
        assert forall|k: int| 0 <= k < pl.len() implies runnable(wv, s as int, #[trigger] pl[k]) by {
            assert(plan@[k] < n);
        }
        assert forall|v: int| runnable(wv, s as int, v) implies exists|k: int| 0 <= k < pl.len() && pl[k] == v by {
            assert(topo_i.contains(v));
            let j = choose|j: int| 0 <= j < topo_i.len() && topo_i[j] == v;
            assert(topo@[j] as int == v);
            assert(reach@[topo@[j] as int]);
            let k = choose|k: int| 0 <= k < idx.len() && idx[k] == j;
            assert(pl[k] == v);
        }
        assert forall|k1: int, k2: int| 0 <= k1 < k2 < pl.len() implies pl[k1] != pl[k2] by {
            assert(idx[k1] < idx[k2]);
            assert(topo_i[idx[k1]] != topo_i[idx[k2]]);
        }
        assert forall|e: int, k1: int, k2: int|
            #![trigger edges[e], pl[k1], pl[k2]]
            0 <= e < edges.len() && 0 <= k1 < pl.len() && 0 <= k2 < pl.len() && pl[k1] == edges[e].0
                && pl[k2] == edges[e].1 implies k1 < k2 by {
            assert(topo_i[idx[k1]] == edges[e].0);
            assert(topo_i[idx[k2]] == edges[e].1);
            assert(idx[k1] < idx[k2]);
            if k2 < k1 {
                assert(idx[k2] < idx[k1]);
            }
        }
    }
    if w.nodes[s].node_type.is_trigger() && plan.len() == 0 {
        proof {
            assert forall|v: int| !runnable(wv, s as int, v) by {
                if runnable(wv, s as int, v) {
                    let k = choose|k: int| 0 <= k < pl.len() && pl[k] == v;
                }
            }
        }
        return Err(EngineError::EmptyFlow);
    }
    proof {
        assert(is_run_order(pl, wv, s as int));
        assert(workflow_acyclic(wv));
        assert(first_index(node_ids(wv.nodes), start_node_id@) == Some(s as int));
        if wv.nodes[s as int].node_type.spec_is_trigger() {
            assert(pl.len() > 0);
            assert(runnable(wv, s as int, pl[0]));
        }
        assert(plan_failure(wv, start_node_id@) is None);
    }
    let result = ExecutionResult {
        data: clone_values(&context.data),
        metadata: clone_entries(&context.metadata),
        should_continue: true,
    };
    Ok(ExecutionRun { plan, plan_ids, step: 0, result, workflow: Ghost(wv), start: Ghost(s as int) })
}

impl ExecutionRun {
    /// The position of the next node to run, or `None` when the run is over:
    /// every planned node ran, or the last result asked to stop.
    pub fn next_node(&self) -> (r: Option<usize>)
        requires
            self.wf(),
        ensures
            r == if self.step < self.plan@.len() && self.result.should_continue {
                Some(self.plan@[self.step as int])
            } else {
                None::<usize>
            },
    {
        if self.step < self.plan.len() && self.result.should_continue {
            Some(self.plan[self.step])
        } else {
            None
        }
    }

    /// The context handed to the next node: `base` with the latest data and metadata.
    pub fn node_context(&self, base: &ExecutionContext) -> (r: ExecutionContext)
        ensures
            items_data(r.data@) == items_data(self.result.data@),
            meta(r.metadata@) == meta(self.result.metadata@),
            r.project_slug@ == base.project_slug@,
            r.files@ == base.files@,
            r.query@ == base.query@,
            r.headers@ == base.headers@,
    {
        base.with_result(&self.result)
    }

    /// Records how the next node ended: its result carries the run on; its
    /// failure ends the run with that node's identifier.
    pub fn record(&mut self, outcome: Result<ExecutionResult, NodeError>) -> (r: Result<(), EngineError>)
        requires
            old(self).wf(),
            old(self).step < old(self).plan@.len(),
        ensures
            final(self).wf(),
            final(self).plan == old(self).plan,
            final(self).plan_ids == old(self).plan_ids,
            final(self).workflow == old(self).workflow,
            final(self).start == old(self).start,
            match outcome {
                Ok(res) => r is Ok && final(self).step == old(self).step + 1 && final(self).result == res,
                Err(e) => match r {
                    Err(EngineError::NodeFailed(id, cause)) => id@ == old(self).plan_ids@[old(self).step as int]@
                        && cause == e && final(self).step == old(self).step,
                    _ => false,
                },
            },
    {
        match outcome {
            Ok(res) => {
                let n = self.plan.len();
                assert(self.step < n);
                self.result = res;
                self.step = self.step + 1;
                Ok(())
            },
            Err(e) => {
                let id = self.plan_ids[self.step].clone();
                Err(EngineError::NodeFailed(id, e))
            },
        }
    }

    /// The result the run ends with.
    pub fn finish(self) -> (r: ExecutionResult)
        ensures
            r == self.result,
    {
        self.result
    }
}

/// Law: the nodes an execution has run so far are a prefix of a topological
/// order of the nodes reachable from the entry, triggers left out.
pub proof fn law_executed_nodes_follow_topological_order(run: ExecutionRun)
    requires
        run.wf(),
    ensures
        exists|order: Seq<int>|
            is_run_order(order, run.workflow@, run.start@) && run.executed() == order.subrange(0, run.step as int),
{
    let o = as_ints(run.plan@);
    assert(o.len() == run.plan@.len());
    assert(is_run_order(o, run.workflow@, run.start@));
    assert(run.executed() == o.subrange(0, run.step as int));
}

} // verus!
