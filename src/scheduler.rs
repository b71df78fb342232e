//! The cron scheduler's handle table: which job handle runs each cron node,
//! keyed by (workflow identifier, node identifier), and how it is reconciled
//! when workflows change. The scheduler runtime itself is driven by the caller.
use vstd::prelude::*;
use vstd::string::*;
use crate::text::same_text;
use crate::workflow::{NodeType, NodeView, Workflow};
use crate::registry::WorkflowTable;
use crate::context::{meta, starts_with_ids, ExecutionContext};
use crate::json::JsonData;

verus! {

/// A cron node of a workflow: its identifier and its schedule.
pub struct CronSpec {
    pub node_id: String,
    pub schedule: String,
}

/// Why a workflow's cron jobs cannot be registered.
#[derive(Clone, Copy, Debug, PartialEq, Eq, Structural)]
pub enum SchedulerError {
    /// A `CronTrigger` node has no string `schedule` parameter.
    MissingSchedule,
}

/// The cron nodes of `nodes` with their schedules, in order; `None` when one
/// has no string `schedule`.
pub open spec fn cron_specs(nodes: Seq<NodeView>) -> Option<Seq<(Seq<char>, Seq<char>)>>
    decreases nodes.len(),
{
    if nodes.len() == 0 {
        Some(Seq::empty())
    } else {
        match cron_specs(nodes.drop_last()) {
            None => None,
            Some(r) => {
                let n = nodes.last();
                if n.node_type == NodeType::CronTrigger {
                    match n.params.text_field("schedule"@) {
                        Some(s) => Some(r.push((n.id, s))),
                        None => None,
                    }
                } else {
                    Some(r)
                }
            },
        }
    }
}

pub open spec fn spec_view(v: Seq<CronSpec>) -> Seq<(Seq<char>, Seq<char>)> {
    v.map_values(|c: CronSpec| (c.node_id@, c.schedule@))
}

/// The cron nodes of `workflow` with their schedules.
pub fn cron_jobs_of(workflow: &Workflow) -> (r: Result<Vec<CronSpec>, SchedulerError>)
    ensures
        match r {
            Ok(v) => cron_specs(workflow@.nodes) == Some(spec_view(v@)),
            Err(_) => cron_specs(workflow@.nodes) is None,
        },
{
    let ghost nodes = workflow@.nodes;
    let mut out: Vec<CronSpec> = Vec::new();
    let mut i: usize = 0;
    while i < workflow.nodes.len()
        invariant
            nodes == workflow@.nodes,
            i <= workflow.nodes.len(),
            cron_specs(nodes.subrange(0, i as int)) == Some(spec_view(out@)),
        decreases workflow.nodes.len() - i,
    {
        let ghost pre = nodes.subrange(0, i as int);
        let ghost post = nodes.subrange(0, i + 1);
        assert(post.drop_last() =~= pre);
        assert(post.last() == workflow.nodes@[i as int]@);
        let node = &workflow.nodes[i];
        if node.node_type == NodeType::CronTrigger {
            match node.params.text_field("schedule") {
                Some(s) => {
                    let ghost before = out@;
                    out.push(CronSpec { node_id: node.id.clone(), schedule: s.clone() });
                    assert(spec_view(out@) =~= spec_view(before).push((node.id@, s@)));
                },
                None => {
                    proof {
                        lemma_specs_fail_extends(nodes, i as int + 1);
                    }
                    return Err(SchedulerError::MissingSchedule);
                },
            }
        }
        i = i + 1;
    }
    assert(nodes.subrange(0, nodes.len() as int) =~= nodes);
    Ok(out)
}

proof fn lemma_specs_fail_extends(nodes: Seq<NodeView>, i: int)
    requires
        0 <= i <= nodes.len(),
        cron_specs(nodes.subrange(0, i)) is None,
    ensures
        cron_specs(nodes) is None,
    decreases nodes.len() - i,
{
    if i < nodes.len() {
        assert(nodes.subrange(0, i + 1).drop_last() =~= nodes.subrange(0, i));
        lemma_specs_fail_extends(nodes, i + 1);
    } else {
        assert(nodes.subrange(0, i) =~= nodes);
    }
}

/// Whether `n` is the node of one of `specs`.
pub fn has_node(specs: &Vec<CronSpec>, n: &str) -> (r: bool)
    ensures
        r == spec_view(specs@).map_values(|p: (Seq<char>, Seq<char>)| p.0).contains(n@),
{
    let ghost ns = spec_view(specs@).map_values(|p: (Seq<char>, Seq<char>)| p.0);
    let mut i: usize = 0;
    while i < specs.len()
        invariant
            ns == spec_view(specs@).map_values(|p: (Seq<char>, Seq<char>)| p.0),
            i <= specs.len(),
            forall|k: int| 0 <= k < i ==> ns[k] != n@,
        decreases specs.len() - i,
    {
        assert(ns[i as int] == specs@[i as int].node_id@);
        if same_text(specs[i].node_id.as_str(), n) {
            return true;
        }
        i = i + 1;
    }
    false
}

/// A registered job: the cron node it runs and the scheduler's handle for it.
pub struct CronJob {
    pub workflow_id: String,
    pub node_id: String,
    pub handle: u128,
}

pub type JobView = (Seq<char>, Seq<char>, u128);

/// The handle table.
pub struct CronJobTable {
    pub jobs: Vec<CronJob>,
}

pub open spec fn jobs_view(v: Seq<CronJob>) -> Seq<JobView> {
    v.map_values(|j: CronJob| (j.workflow_id@, j.node_id@, j.handle))
}

/// The entries other than the one keyed `(w, n)`.
pub open spec fn drop_key(es: Seq<JobView>, w: Seq<char>, n: Seq<char>) -> Seq<JobView>
    decreases es.len(),
{
    if es.len() == 0 {
        es
    } else {
        let r = drop_key(es.drop_last(), w, n);
        if es.last().0 == w && es.last().1 == n {
            r
        } else {
            r.push(es.last())
        }
    }
}

/// The entries of workflows other than `w`.
pub open spec fn drop_workflow(es: Seq<JobView>, w: Seq<char>) -> Seq<JobView>
    decreases es.len(),
{
    if es.len() == 0 {
        es
    } else {
        let r = drop_workflow(es.drop_last(), w);
        if es.last().0 == w {
            r
        } else {
            r.push(es.last())
        }
    }
}

/// The table after registering, one by one, a fresh handle for each of the
/// nodes `ns` of workflow `w`, each replacing the entry with its key.
pub open spec fn put_jobs(es: Seq<JobView>, w: Seq<char>, ns: Seq<Seq<char>>, hs: Seq<u128>) -> Seq<JobView>
    decreases ns.len(),
{
    if ns.len() == 0 {
        es
    } else {
        drop_key(put_jobs(es, w, ns.drop_last(), hs.drop_last()), w, ns.last()).push(
            (w, ns.last(), hs[ns.len() - 1]),
        )
    }
}

/// The node identifiers that have a handle under workflow `w`.
pub open spec fn nodes_of(es: Seq<JobView>, w: Seq<char>) -> Set<Seq<char>> {
    Set::new(|n: Seq<char>| exists|i: int| 0 <= i < es.len() && es[i].0 == w && es[i].1 == n)
}

/// The entries other than those of workflow `w` whose node is not in `ns`.
pub open spec fn drop_stale(es: Seq<JobView>, w: Seq<char>, ns: Seq<Seq<char>>) -> Seq<JobView>
    decreases es.len(),
{
    if es.len() == 0 {
        es
    } else {
        let r = drop_stale(es.drop_last(), w, ns);
        if es.last().0 == w && !ns.contains(es.last().1) {
            r
        } else {
            r.push(es.last())
        }
    }
}

/// The handles of the entries of workflow `w` whose node is not in `ns`.
pub open spec fn stale_handles(es: Seq<JobView>, w: Seq<char>, ns: Seq<Seq<char>>) -> Seq<u128>
    decreases es.len(),
{
    if es.len() == 0 {
        Seq::empty()
    } else {
        let r = stale_handles(es.drop_last(), w, ns);
        if es.last().0 == w && !ns.contains(es.last().1) {
            r.push(es.last().2)
        } else {
            r
        }
    }
}

/// What `add_or_update` leaves: the workflow's entries for nodes that are no
/// longer cron nodes are gone, and each cron node has its new handle.
pub open spec fn reconciled(es: Seq<JobView>, w: Seq<char>, ns: Seq<Seq<char>>, hs: Seq<u128>) -> Seq<JobView> {
    put_jobs(drop_stale(es, w, ns), w, ns, hs)
}

impl CronJobTable {
    pub open spec fn view_jobs(&self) -> Seq<JobView> {
        jobs_view(self.jobs@)
    }

    /// An empty table.
    pub fn new() -> (r: Self)
        ensures
            r.view_jobs() == Seq::<JobView>::empty(),
    {
        let r = CronJobTable { jobs: Vec::new() };
        assert(r.view_jobs() =~= Seq::<JobView>::empty());
        r
    }

    /// Removes the entry keyed `(w, n)`; returns its handle, if there was one.
    pub fn take(&mut self, w: &str, n: &str) -> (r: Vec<u128>)
        ensures
            final(self).view_jobs() == drop_key(old(self).view_jobs(), w@, n@),
            r@ == key_handles(old(self).view_jobs(), w@, n@),
    {
        let ghost es = self.view_jobs();
        let mut kept: Vec<CronJob> = Vec::new();
        let mut gone: Vec<u128> = Vec::new();
        let mut i: usize = 0;
        while i < self.jobs.len()
            invariant
                es == self.view_jobs(),
                i <= self.jobs.len(),
                jobs_view(kept@) == drop_key(es.subrange(0, i as int), w@, n@),
                gone@ == key_handles(es.subrange(0, i as int), w@, n@),
            decreases self.jobs.len() - i,
        {
            let j = &self.jobs[i];
            let ghost pre = es.subrange(0, i as int);
            let ghost post = es.subrange(0, i + 1);
            assert(post.drop_last() =~= pre);
            assert(post.last() == (j.workflow_id@, j.node_id@, j.handle));
            if same_text(j.workflow_id.as_str(), w) && same_text(j.node_id.as_str(), n) {
                gone.push(j.handle);
            } else {
                let ghost before = kept@;
                kept.push(CronJob { workflow_id: j.workflow_id.clone(), node_id: j.node_id.clone(), handle: j.handle });
                assert(jobs_view(kept@) =~= jobs_view(before).push((j.workflow_id@, j.node_id@, j.handle)));
            }
            i = i + 1;
        }
        assert(es.subrange(0, es.len() as int) =~= es);
        self.jobs = kept;
        gone
    }

    /// Removes every entry of workflow `w`; returns their handles.
    pub fn remove_workflow(&mut self, w: &str) -> (r: Vec<u128>)
        ensures
            final(self).view_jobs() == drop_workflow(old(self).view_jobs(), w@),
            r@ == workflow_handles(old(self).view_jobs(), w@),
    {
        let ghost es = self.view_jobs();
        let mut kept: Vec<CronJob> = Vec::new();
        let mut gone: Vec<u128> = Vec::new();
        let mut i: usize = 0;
        while i < self.jobs.len()
            invariant
                es == self.view_jobs(),
                i <= self.jobs.len(),
                jobs_view(kept@) == drop_workflow(es.subrange(0, i as int), w@),
                gone@ == workflow_handles(es.subrange(0, i as int), w@),
            decreases self.jobs.len() - i,
        {
            let j = &self.jobs[i];
            let ghost pre = es.subrange(0, i as int);
            let ghost post = es.subrange(0, i + 1);
            assert(post.drop_last() =~= pre);
            assert(post.last() == (j.workflow_id@, j.node_id@, j.handle));
            if same_text(j.workflow_id.as_str(), w) {
                gone.push(j.handle);
            } else {
                let ghost before = kept@;
                kept.push(CronJob { workflow_id: j.workflow_id.clone(), node_id: j.node_id.clone(), handle: j.handle });
                assert(jobs_view(kept@) =~= jobs_view(before).push((j.workflow_id@, j.node_id@, j.handle)));
            }
            i = i + 1;
        }
        assert(es.subrange(0, es.len() as int) =~= es);
        self.jobs = kept;
        gone
    }

    /// Removes the entries of workflow `w` whose node is not one of `specs`;
    /// returns their handles.
    pub fn drop_stale(&mut self, w: &str, specs: &Vec<CronSpec>) -> (r: Vec<u128>)
        ensures
            final(self).view_jobs() == drop_stale(
                old(self).view_jobs(),
                w@,
                spec_view(specs@).map_values(|p: (Seq<char>, Seq<char>)| p.0),
            ),
            r@ == stale_handles(
                old(self).view_jobs(),
                w@,
                spec_view(specs@).map_values(|p: (Seq<char>, Seq<char>)| p.0),
            ),
    {
        let ghost ns = spec_view(specs@).map_values(|p: (Seq<char>, Seq<char>)| p.0);
        let ghost es = self.view_jobs();
        let mut kept: Vec<CronJob> = Vec::new();
        let mut gone: Vec<u128> = Vec::new();
        let mut i: usize = 0;
        while i < self.jobs.len()
            invariant
                es == self.view_jobs(),
                ns == spec_view(specs@).map_values(|p: (Seq<char>, Seq<char>)| p.0),
                i <= self.jobs.len(),
                jobs_view(kept@) == drop_stale(es.subrange(0, i as int), w@, ns),
                gone@ == stale_handles(es.subrange(0, i as int), w@, ns),
            decreases self.jobs.len() - i,
        {
            let j = &self.jobs[i];
            let ghost pre = es.subrange(0, i as int);
            let ghost post = es.subrange(0, i + 1);
            assert(post.drop_last() =~= pre);
            assert(post.last() == (j.workflow_id@, j.node_id@, j.handle));
            if same_text(j.workflow_id.as_str(), w) && !has_node(specs, j.node_id.as_str()) {
                gone.push(j.handle);
            } else {
                let ghost before = kept@;
                kept.push(CronJob { workflow_id: j.workflow_id.clone(), node_id: j.node_id.clone(), handle: j.handle });
                assert(jobs_view(kept@) =~= jobs_view(before).push((j.workflow_id@, j.node_id@, j.handle)));
            }
            i = i + 1;
        }
        assert(es.subrange(0, es.len() as int) =~= es);
        self.jobs = kept;
        gone
    }

    /// Reconciles workflow `w` with its cron nodes `specs`, whose new jobs
    /// have the handles `handles` (one each, in order): the entries of `w`
    /// for other nodes go, and each cron node's new handle replaces the entry
    /// with its key. Returns the handles that were removed or replaced.
    pub fn add_or_update(&mut self, w: &str, specs: &Vec<CronSpec>, handles: &Vec<u128>) -> (r: Vec<u128>)
        requires
            specs@.len() == handles@.len(),
        ensures
            final(self).view_jobs() == reconciled(
                old(self).view_jobs(),
                w@,
                spec_view(specs@).map_values(|p: (Seq<char>, Seq<char>)| p.0),
                handles@,
            ),
    {
        let ghost ns = spec_view(specs@).map_values(|p: (Seq<char>, Seq<char>)| p.0);
        let mut gone = self.drop_stale(w, specs);
        let ghost es = self.view_jobs();
        let mut k: usize = 0;
        assert(ns.subrange(0, 0) =~= Seq::<Seq<char>>::empty());
        while k < specs.len()
            invariant
                specs@.len() == handles@.len(),
                ns == spec_view(specs@).map_values(|p: (Seq<char>, Seq<char>)| p.0),
                k <= specs.len(),
                self.view_jobs() == put_jobs(es, w@, ns.subrange(0, k as int), handles@.subrange(0, k as int)),
            decreases specs.len() - k,
        {
            let mut old_handles = self.take(w, specs[k].node_id.as_str());
            gone.append(&mut old_handles);
            let ghost before = self.jobs@;
            self.jobs.push(CronJob { workflow_id: String::from_str(w), node_id: specs[k].node_id.clone(), handle: handles[k] });
            proof {
                let ns2 = ns.subrange(0, k + 1);
                let hs2 = handles@.subrange(0, k + 1);
                assert(ns2.drop_last() =~= ns.subrange(0, k as int));
                assert(hs2.drop_last() =~= handles@.subrange(0, k as int));
                assert(ns2.last() == specs@[k as int].node_id@);
                assert(self.view_jobs() =~= jobs_view(before).push((w@, specs@[k as int].node_id@, handles@[k as int])));
            }
            k = k + 1;
        }
        assert(ns.subrange(0, ns.len() as int) =~= ns);
        assert(handles@.subrange(0, handles@.len() as int) =~= handles@);
        gone
    }

    /// Empties the table; returns every handle.
    pub fn clear(&mut self) -> (r: Vec<u128>)
        ensures
            final(self).view_jobs() == Seq::<JobView>::empty(),
            r@ == old(self).view_jobs().map_values(|e: JobView| e.2),
    {
        let mut out: Vec<u128> = Vec::new();
        let mut i: usize = 0;
        while i < self.jobs.len()
            invariant
                i <= self.jobs.len(),
                out@ == self.view_jobs().subrange(0, i as int).map_values(|e: JobView| e.2),
            decreases self.jobs.len() - i,
        {
            out.push(self.jobs[i].handle);
            assert(out@ =~= self.view_jobs().subrange(0, i + 1).map_values(|e: JobView| e.2));
            i = i + 1;
        }
        assert(self.view_jobs().subrange(0, self.view_jobs().len() as int) =~= self.view_jobs());
        self.jobs = Vec::new();
        assert(self.view_jobs() =~= Seq::<JobView>::empty());
        out
    }
}

/// The handles of the entries keyed `(w, n)`.
pub open spec fn key_handles(es: Seq<JobView>, w: Seq<char>, n: Seq<char>) -> Seq<u128>
    decreases es.len(),
{
    if es.len() == 0 {
        Seq::empty()
    } else {
        let r = key_handles(es.drop_last(), w, n);
        if es.last().0 == w && es.last().1 == n {
            r.push(es.last().2)
        } else {
            r
        }
    }
}

/// The handles of the entries of workflow `w`.
pub open spec fn workflow_handles(es: Seq<JobView>, w: Seq<char>) -> Seq<u128>
    decreases es.len(),
{
    if es.len() == 0 {
        Seq::empty()
    } else {
        let r = workflow_handles(es.drop_last(), w);
        if es.last().0 == w {
            r.push(es.last().2)
        } else {
            r
        }
    }
}

/// What a cron tick of node `node_id` of workflow `workflow_id` runs: the
/// workflow as the registry holds it now, and a cron context for the tenant
/// `project_slug`; nothing when the workflow is gone.
pub fn cron_tick(
    table: &WorkflowTable,
    workflow_id: &str,
    node_id: &str,
    project_slug: &str,
) -> (r: Option<(crate::workflow::CompiledWorkflow, ExecutionContext)>)
    ensures
        match r {
            None => crate::registry::lookup(table.entries(), workflow_id@) is None,
            Some((c, ctx)) => {
                &&& crate::registry::lookup(table.entries(), workflow_id@) == Some(c@)
                &&& ctx.project_slug@ == project_slug@
                &&& meta(ctx.metadata@).len() == 4
                &&& starts_with_ids(meta(ctx.metadata@), workflow_id@)
                &&& meta(ctx.metadata@)[1] == ("trigger_node_id"@, JsonData::Str(node_id@))
                &&& meta(ctx.metadata@)[2] == ("trigger_type"@, JsonData::Str("cron"@))
                &&& ctx.data@.len() == 1
                &&& ctx.data@[0]@.field("trigger_type"@) == Some(JsonData::Str("cron"@))
                &&& ctx.data@[0]@.field("workflow_id"@) == Some(JsonData::Str(workflow_id@))
                &&& ctx.data@[0]@.field("timestamp"@) == Some(meta(ctx.metadata@)[3].1)
                &&& ctx.files@.len() == 0 && ctx.query@.len() == 0 && ctx.headers@.len() == 0
            },
        },
{
    match table.get(workflow_id) {
        None => None,
        Some(c) => {
            let ctx = ExecutionContext::from_cron_trigger(
                String::from_str(workflow_id),
                String::from_str(node_id),
                String::from_str(project_slug),
            );
            Some((c.duplicate(), ctx))
        },
    }
}

} // verus!
