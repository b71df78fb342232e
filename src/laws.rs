//! Properties that relate several operations: registry reloads, compiled
//! indices, and cron reconciliation.
use vstd::prelude::*;
use crate::executor::{limit_of, read_plan, NodeErrorKind};
use crate::sql::{is_identifier, is_safe_filter, select_sql, where_symbol};
use crate::text::alnum;
use crate::registry::{lookup, table_ok, upsert, without};
use crate::scheduler::{drop_key, drop_stale, drop_workflow, nodes_of, put_jobs, reconciled, JobView};
use crate::workflow::{
    compile_failure, compiled_form, start_ids_of, webhook_paths_of, CompiledView, NodeType, NodeView,
    WorkflowView,
};

verus! {

proof fn lemma_upsert_places(es: Seq<CompiledView>, c: CompiledView)
    requires
        forall|i: int, j: int|
            0 <= i < j < es.len() ==> #[trigger] es[i].workflow.id != #[trigger] es[j].workflow.id,
    ensures
        forall|i: int, j: int|
            0 <= i < j < upsert(es, c).len() ==> #[trigger] upsert(es, c)[i].workflow.id
                != #[trigger] upsert(es, c)[j].workflow.id,
        exists|k: int| 0 <= k < upsert(es, c).len() && upsert(es, c)[k] == c,
{
    let u = upsert(es, c);
    if exists|i: int| 0 <= i < es.len() && es[i].workflow.id == c.workflow.id {
        let k = choose|i: int| 0 <= i < es.len() && es[i].workflow.id == c.workflow.id;
        assert(u[k] == c);
        assert forall|i: int, j: int| 0 <= i < j < u.len() implies #[trigger] u[i].workflow.id != #[trigger] u[j].workflow.id by {
            if i == k {
                assert(es[j].workflow.id != es[k].workflow.id);
            } else if j == k {
                assert(es[i].workflow.id != es[k].workflow.id);
            } else {
                assert(es[i].workflow.id != es[j].workflow.id);
            }
        }
    } else {
        assert(u[es.len() as int] == c);
        assert forall|i: int, j: int| 0 <= i < j < u.len() implies #[trigger] u[i].workflow.id != #[trigger] u[j].workflow.id by {
            if j == es.len() {
                assert(u[i] == es[i]);
            } else {
                assert(es[i].workflow.id != es[j].workflow.id);
            }
        }
    }
}

proof fn lemma_lookup_unique(es: Seq<CompiledView>, k: int)
    requires
        0 <= k < es.len(),
        forall|i: int, j: int|
            0 <= i < j < es.len() ==> #[trigger] es[i].workflow.id != #[trigger] es[j].workflow.id,
    ensures
        lookup(es, es[k].workflow.id) == Some(es[k]),
{
    let id = es[k].workflow.id;
    let j = choose|j: int| 0 <= j < es.len() && es[j].workflow.id == id;
    if j < k {
        assert(es[j].workflow.id != es[k].workflow.id);
    } else if k < j {
        assert(es[k].workflow.id != es[j].workflow.id);
    }
}

/// Law: after a workflow `w` that compiles is reloaded into a valid table,
/// looking up its identifier gives its compiled form, which holds `w` itself.
pub proof fn law_reload_then_get(es: Seq<CompiledView>, w: WorkflowView)
    requires
        table_ok(es),
        compile_failure(w) is None,
    ensures
        lookup(upsert(es, compiled_form(w)), w.id) == Some(compiled_form(w)),
        compiled_form(w).workflow == w,
{
    let c = compiled_form(w);
    lemma_upsert_places(es, c);
    let u = upsert(es, c);
    let k = choose|k: int| 0 <= k < u.len() && u[k] == c;
    lemma_lookup_unique(u, k);
}

/// Law: reloading the same stored workflow twice in a row gives the same
/// table as reloading it once.
pub proof fn law_reload_idempotent(es: Seq<CompiledView>, w: WorkflowView)
    requires
        table_ok(es),
    ensures
        upsert(upsert(es, compiled_form(w)), compiled_form(w)) == upsert(es, compiled_form(w)),
{
    let c = compiled_form(w);
    lemma_upsert_places(es, c);
    let u = upsert(es, c);
    let k = choose|k: int| 0 <= k < u.len() && u[k] == c;
    let j = choose|j: int| 0 <= j < u.len() && u[j].workflow.id == c.workflow.id;
    if j < k {
        assert(u[j].workflow.id != u[k].workflow.id);
    } else if k < j {
        assert(u[k].workflow.id != u[j].workflow.id);
    }
    assert(u.update(j, c) =~= u);
}

/// Law: removing a workflow leaves no entry for its identifier.
pub proof fn law_remove_then_get(es: Seq<CompiledView>, id: Seq<char>)
    requires
        table_ok(es),
    ensures
        lookup(without(es, id), id) is None,
{
    if exists|i: int| 0 <= i < es.len() && es[i].workflow.id == id {
        let k = choose|i: int| 0 <= i < es.len() && es[i].workflow.id == id;
        let r = es.remove(k);
        assert forall|i: int| 0 <= i < r.len() implies r[i].workflow.id != id by {
            if i < k {
                assert(es[i].workflow.id != es[k].workflow.id);
            } else {
                assert(r[i] == es[i + 1]);
                assert(es[k].workflow.id != es[i + 1].workflow.id);
            }
        }
    }
}

proof fn lemma_paths_members(nodes: Seq<NodeView>, p: Seq<char>)
    ensures
        webhook_paths_of(nodes).contains(p) <==> exists|i: int|
            0 <= i < nodes.len() && nodes[i].node_type == NodeType::Webhook
                && #[trigger] nodes[i].params.text_field("path"@) == Some(p),
    decreases nodes.len(),
{
    if nodes.len() > 0 {
        let pre = nodes.drop_last();
        lemma_paths_members(pre, p);
        let n = nodes.last();
        let r = webhook_paths_of(pre);
        if webhook_paths_of(nodes).contains(p) {
            let k = choose|k: int| 0 <= k < webhook_paths_of(nodes).len() && webhook_paths_of(nodes)[k] == p;
            if k < r.len() && webhook_paths_of(nodes) == r.push(n.params.text_field("path"@).unwrap()) {
                assert(r.contains(p));
                let i = choose|i: int|
                    0 <= i < pre.len() && pre[i].node_type == NodeType::Webhook && #[trigger] pre[i].params.text_field(
                        "path"@,
                    ) == Some(p);
                assert(nodes[i] == pre[i]);
            } else if webhook_paths_of(nodes) == r {
                assert(r.contains(p));
                let i = choose|i: int|
                    0 <= i < pre.len() && pre[i].node_type == NodeType::Webhook && #[trigger] pre[i].params.text_field(
                        "path"@,
                    ) == Some(p);
                assert(nodes[i] == pre[i]);
            } else {
                assert(nodes[nodes.len() - 1] == n);
            }
        }
        if exists|i: int|
            0 <= i < nodes.len() && nodes[i].node_type == NodeType::Webhook && #[trigger] nodes[i].params.text_field(
                "path"@,
            ) == Some(p) {
            let i = choose|i: int|
                0 <= i < nodes.len() && nodes[i].node_type == NodeType::Webhook && #[trigger] nodes[i].params.text_field(
                    "path"@,
                ) == Some(p);
            if i < pre.len() {
                assert(pre[i] == nodes[i]);
                assert(r.contains(p));
                let k = choose|k: int| 0 <= k < r.len() && r[k] == p;
                if n.node_type == NodeType::Webhook && n.params.text_field("path"@) is Some {
                    assert(webhook_paths_of(nodes)[k] == p);
                } else {
                    assert(webhook_paths_of(nodes)[k] == p);
                }
            } else {
                assert(webhook_paths_of(nodes)[r.len() as int] == p);
            }
        }
    }
}

proof fn lemma_starts_members(nodes: Seq<NodeView>, id: Seq<char>)
    ensures
        start_ids_of(nodes).contains(id) <==> exists|i: int|
            0 <= i < nodes.len() && nodes[i].node_type.spec_is_entry() && #[trigger] nodes[i].id == id,
    decreases nodes.len(),
{
    if nodes.len() > 0 {
        let pre = nodes.drop_last();
        lemma_starts_members(pre, id);
        let n = nodes.last();
        let r = start_ids_of(pre);
        if start_ids_of(nodes).contains(id) {
            let k = choose|k: int| 0 <= k < start_ids_of(nodes).len() && start_ids_of(nodes)[k] == id;
            if k < r.len() {
                assert(r[k] == id);
                assert(r.contains(id));
                let i = choose|i: int| 0 <= i < pre.len() && pre[i].node_type.spec_is_entry() && #[trigger] pre[i].id == id;
                assert(nodes[i] == pre[i]);
            } else {
                assert(nodes[nodes.len() - 1] == n);
            }
        }
        if exists|i: int| 0 <= i < nodes.len() && nodes[i].node_type.spec_is_entry() && #[trigger] nodes[i].id == id {
            let i = choose|i: int| 0 <= i < nodes.len() && nodes[i].node_type.spec_is_entry() && #[trigger] nodes[i].id == id;
            if i < pre.len() {
                assert(pre[i] == nodes[i]);
                assert(r.contains(id));
                let k = choose|k: int| 0 <= k < r.len() && r[k] == id;
                assert(start_ids_of(nodes)[k] == id);
            } else {
                assert(start_ids_of(nodes)[r.len() as int] == id);
            }
        }
    }
}

/// Law: a compiled workflow's webhook paths are exactly the `path`
/// parameters of its `Webhook` nodes, and its entry nodes are exactly its
/// `Webhook` and `CronTrigger` nodes, of which there is at least one.
pub proof fn law_compiled_indices(w: WorkflowView)
    requires
        compile_failure(w) is None,
    ensures
        compiled_form(w).webhook_paths.to_set() == Set::new(
            |p: Seq<char>|
                exists|i: int|
                    0 <= i < w.nodes.len() && w.nodes[i].node_type == NodeType::Webhook
                        && #[trigger] w.nodes[i].params.text_field("path"@) == Some(p),
        ),
        compiled_form(w).start_node_ids.to_set() == Set::new(
            |id: Seq<char>|
                exists|i: int| 0 <= i < w.nodes.len() && w.nodes[i].node_type.spec_is_entry() && #[trigger] w.nodes[i].id == id,
        ),
        compiled_form(w).start_node_ids.len() > 0,
{
    assert forall|p: Seq<char>| #[trigger] compiled_form(w).webhook_paths.to_set().contains(p) == Set::new(
        |p: Seq<char>|
            exists|i: int|
                0 <= i < w.nodes.len() && w.nodes[i].node_type == NodeType::Webhook
                    && #[trigger] w.nodes[i].params.text_field("path"@) == Some(p),
    ).contains(p) by {
        lemma_paths_members(w.nodes, p);
    }
    assert forall|id: Seq<char>| #[trigger] compiled_form(w).start_node_ids.to_set().contains(id) == Set::new(
        |id: Seq<char>|
            exists|i: int| 0 <= i < w.nodes.len() && w.nodes[i].node_type.spec_is_entry() && #[trigger] w.nodes[i].id == id,
    ).contains(id) by {
        lemma_starts_members(w.nodes, id);
    }
    assert(compiled_form(w).webhook_paths.to_set() =~= Set::new(
        |p: Seq<char>|
            exists|i: int|
                0 <= i < w.nodes.len() && w.nodes[i].node_type == NodeType::Webhook
                    && #[trigger] w.nodes[i].params.text_field("path"@) == Some(p),
    ));
    assert(compiled_form(w).start_node_ids.to_set() =~= Set::new(
        |id: Seq<char>|
            exists|i: int| 0 <= i < w.nodes.len() && w.nodes[i].node_type.spec_is_entry() && #[trigger] w.nodes[i].id == id,
    ));
}

/// Law: compiling depends on the workflow's value alone, so a workflow read
/// back equal to the one saved compiles to the same form.
pub proof fn law_compile_is_pure(a: WorkflowView, b: WorkflowView)
    requires
        a == b,
    ensures
        compile_failure(a) == compile_failure(b),
        compiled_form(a) == compiled_form(b),
{
}

proof fn lemma_drop_key_contains(es: Seq<JobView>, w: Seq<char>, n: Seq<char>, e: JobView)
    ensures
        drop_key(es, w, n).contains(e) <==> (es.contains(e) && !(e.0 == w && e.1 == n)),
    decreases es.len(),
{
    if es.len() > 0 {
        let pre = es.drop_last();
        lemma_drop_key_contains(pre, w, n, e);
        let r = drop_key(pre, w, n);
        if drop_key(es, w, n).contains(e) {
            let k = choose|k: int| 0 <= k < drop_key(es, w, n).len() && drop_key(es, w, n)[k] == e;
            if k < r.len() {
                assert(r[k] == e);
                assert(r.contains(e));
                let j = choose|j: int| 0 <= j < pre.len() && pre[j] == e;
                assert(es[j] == e);
            } else {
                assert(es[es.len() - 1] == e);
            }
        }
        if es.contains(e) && !(e.0 == w && e.1 == n) {
            let j = choose|j: int| 0 <= j < es.len() && es[j] == e;
            if j < pre.len() {
                assert(pre[j] == e);
                assert(r.contains(e));
                let k = choose|k: int| 0 <= k < r.len() && r[k] == e;
                assert(drop_key(es, w, n)[k] == e);
            } else {
                assert(drop_key(es, w, n)[r.len() as int] == e);
            }
        }
    }
}

proof fn lemma_drop_workflow_contains(es: Seq<JobView>, w: Seq<char>, e: JobView)
    ensures
        drop_workflow(es, w).contains(e) <==> (es.contains(e) && e.0 != w),
    decreases es.len(),
{
    if es.len() > 0 {
        let pre = es.drop_last();
        lemma_drop_workflow_contains(pre, w, e);
        let r = drop_workflow(pre, w);
        if drop_workflow(es, w).contains(e) {
            let k = choose|k: int| 0 <= k < drop_workflow(es, w).len() && drop_workflow(es, w)[k] == e;
            if k < r.len() {
                assert(r[k] == e);
                assert(r.contains(e));
                let j = choose|j: int| 0 <= j < pre.len() && pre[j] == e;
                assert(es[j] == e);
            } else {
                assert(es[es.len() - 1] == e);
            }
        }
        if es.contains(e) && e.0 != w {
            let j = choose|j: int| 0 <= j < es.len() && es[j] == e;
            if j < pre.len() {
                assert(pre[j] == e);
                assert(r.contains(e));
                let k = choose|k: int| 0 <= k < r.len() && r[k] == e;
                assert(drop_workflow(es, w)[k] == e);
            } else {
                assert(drop_workflow(es, w)[r.len() as int] == e);
            }
        }
    }
}

proof fn lemma_nodes_of_put(es: Seq<JobView>, w: Seq<char>, ns: Seq<Seq<char>>, hs: Seq<u128>, n: Seq<char>)
    requires
        ns.len() == hs.len(),
    ensures
        nodes_of(put_jobs(es, w, ns, hs), w).contains(n) <==> (nodes_of(es, w).contains(n) || ns.contains(n)),
    decreases ns.len(),
{
    if ns.len() > 0 {
        let ns0 = ns.drop_last();
        let hs0 = hs.drop_last();
        lemma_nodes_of_put(es, w, ns0, hs0, n);
        let p = put_jobs(es, w, ns0, hs0);
        let d = drop_key(p, w, ns.last());
        let q = d.push((w, ns.last(), hs[ns.len() - 1]));
        assert(put_jobs(es, w, ns, hs) == q);
        if n == ns.last() {
            assert(q[d.len() as int] == (w, n, hs[ns.len() - 1]));
            assert(ns[ns.len() - 1] == n);
        } else {
            if nodes_of(q, w).contains(n) {
                let i = choose|i: int| 0 <= i < q.len() && q[i].0 == w && q[i].1 == n;
                assert(i < d.len());
                assert(d.contains(q[i]));
                lemma_drop_key_contains(p, w, ns.last(), q[i]);
                let j = choose|j: int| 0 <= j < p.len() && p[j] == q[i];
                assert(nodes_of(p, w).contains(n));
                if ns0.contains(n) {
                    let k = choose|k: int| 0 <= k < ns0.len() && ns0[k] == n;
                    assert(ns[k] == n);
                }
            }
            if nodes_of(es, w).contains(n) || ns.contains(n) {
                if ns.contains(n) {
                    let k = choose|k: int| 0 <= k < ns.len() && ns[k] == n;
                    assert(k < ns0.len());
                    assert(ns0[k] == n);
                }
                assert(nodes_of(p, w).contains(n));
                let j = choose|j: int| 0 <= j < p.len() && p[j].0 == w && p[j].1 == n;
                lemma_drop_key_contains(p, w, ns.last(), p[j]);
                assert(p.contains(p[j]));
                let k = choose|k: int| 0 <= k < d.len() && d[k] == p[j];
                assert(q[k] == p[j]);
            }
        }
    }
}

proof fn lemma_drop_stale_contains(es: Seq<JobView>, w: Seq<char>, ns: Seq<Seq<char>>, e: JobView)
    ensures
        drop_stale(es, w, ns).contains(e) <==> (es.contains(e) && (e.0 != w || ns.contains(e.1))),
    decreases es.len(),
{
    if es.len() > 0 {
        let pre = es.drop_last();
        lemma_drop_stale_contains(pre, w, ns, e);
        let r = drop_stale(pre, w, ns);
        let d = drop_stale(es, w, ns);
        if d.contains(e) {
            let k = choose|k: int| 0 <= k < d.len() && d[k] == e;
            if k < r.len() {
                assert(r[k] == e);
                assert(r.contains(e));
                let j = choose|j: int| 0 <= j < pre.len() && pre[j] == e;
                assert(es[j] == e);
            } else {
                assert(es[es.len() - 1] == e);
            }
        }
        if es.contains(e) && (e.0 != w || ns.contains(e.1)) {
            let j = choose|j: int| 0 <= j < es.len() && es[j] == e;
            if j < pre.len() {
                assert(pre[j] == e);
                assert(r.contains(e));
                let k = choose|k: int| 0 <= k < r.len() && r[k] == e;
                assert(d[k] == e);
            } else {
                assert(d[r.len() as int] == e);
            }
        }
    }
}

/// Law: once a workflow's cron nodes are reconciled, the handles kept under
/// its identifier are exactly its cron nodes; after its entries are removed,
/// none is kept.
pub proof fn law_reconcile_matches_cron_nodes(es: Seq<JobView>, w: Seq<char>, ns: Seq<Seq<char>>, hs: Seq<u128>)
    requires
        ns.len() == hs.len(),
    ensures
        nodes_of(reconciled(es, w, ns, hs), w) == ns.to_set(),
        nodes_of(drop_workflow(reconciled(es, w, ns, hs), w), w) == Set::<Seq<char>>::empty(),
{
    let d = drop_stale(es, w, ns);
    let r = reconciled(es, w, ns, hs);
    assert forall|n: Seq<char>| #[trigger] nodes_of(r, w).contains(n) == ns.to_set().contains(n) by {
        lemma_nodes_of_put(d, w, ns, hs, n);
        if nodes_of(d, w).contains(n) {
            let i = choose|i: int| 0 <= i < d.len() && d[i].0 == w && d[i].1 == n;
            assert(d.contains(d[i]));
            lemma_drop_stale_contains(es, w, ns, d[i]);
        }
    }
    assert(nodes_of(r, w) =~= ns.to_set());
    let x = drop_workflow(r, w);
    assert forall|n: Seq<char>| !#[trigger] nodes_of(x, w).contains(n) by {
        if nodes_of(x, w).contains(n) {
            let i = choose|i: int| 0 <= i < x.len() && x[i].0 == w && x[i].1 == n;
            assert(x.contains(x[i]));
            lemma_drop_workflow_contains(r, w, x[i]);
        }
    }
    assert(nodes_of(x, w) =~= Set::<Seq<char>>::empty());
}

proof fn lemma_drop_workflow_after_drop_stale(es: Seq<JobView>, w: Seq<char>, ns: Seq<Seq<char>>)
    ensures
        drop_workflow(drop_stale(es, w, ns), w) == drop_workflow(es, w),
    decreases es.len(),
{
    if es.len() > 0 {
        let pre = es.drop_last();
        lemma_drop_workflow_after_drop_stale(pre, w, ns);
        let e = es.last();
        if !(e.0 == w && !ns.contains(e.1)) {
            let ds = drop_stale(pre, w, ns).push(e);
            assert(ds.drop_last() =~= drop_stale(pre, w, ns));
        }
    }
}

/// Law: deleting a workflow leaves no compiled entry and no cron handle for
/// it, and keeps every cron handle of the other workflows.
pub proof fn law_delete_removes_everywhere(es: Seq<CompiledView>, jobs: Seq<JobView>, id: Seq<char>)
    requires
        table_ok(es),
    ensures
        lookup(without(es, id), id) is None,
        nodes_of(drop_workflow(jobs, id), id) == Set::<Seq<char>>::empty(),
        forall|e: JobView| jobs.contains(e) && e.0 != id ==> #[trigger] drop_workflow(jobs, id).contains(e),
{
    law_remove_then_get(es, id);
    let x = drop_workflow(jobs, id);
    assert forall|n: Seq<char>| !#[trigger] nodes_of(x, id).contains(n) by {
        if nodes_of(x, id).contains(n) {
            let i = choose|i: int| 0 <= i < x.len() && x[i].0 == id && x[i].1 == n;
            assert(x.contains(x[i]));
            lemma_drop_workflow_contains(jobs, id, x[i]);
        }
    }
    assert(nodes_of(x, id) =~= Set::<Seq<char>>::empty());
    assert forall|e: JobView| jobs.contains(e) && e.0 != id implies #[trigger] drop_workflow(jobs, id).contains(e) by {
        lemma_drop_workflow_contains(jobs, id, e);
    }
}

proof fn lemma_drop_workflow_after_drop_key(es: Seq<JobView>, w: Seq<char>, n: Seq<char>)
    ensures
        drop_workflow(drop_key(es, w, n), w) == drop_workflow(es, w),
    decreases es.len(),
{
    if es.len() > 0 {
        let pre = es.drop_last();
        lemma_drop_workflow_after_drop_key(pre, w, n);
        let e = es.last();
        if !(e.0 == w && e.1 == n) {
            let dk = drop_key(pre, w, n).push(e);
            assert(dk.drop_last() =~= drop_key(pre, w, n));
        }
    }
}

proof fn lemma_drop_workflow_put(es: Seq<JobView>, w: Seq<char>, ns: Seq<Seq<char>>, hs: Seq<u128>)
    requires
        ns.len() == hs.len(),
    ensures
        drop_workflow(put_jobs(es, w, ns, hs), w) == drop_workflow(es, w),
    decreases ns.len(),
{
    if ns.len() > 0 {
        let ns0 = ns.drop_last();
        let hs0 = hs.drop_last();
        lemma_drop_workflow_put(es, w, ns0, hs0);
        let p = put_jobs(es, w, ns0, hs0);
        let d = drop_key(p, w, ns.last());
        let q = d.push((w, ns.last(), hs[ns.len() - 1]));
        assert(q.drop_last() =~= d);
        lemma_drop_workflow_after_drop_key(p, w, ns.last());
    }
}

proof fn lemma_drop_workflow_absent(es: Seq<JobView>, w: Seq<char>)
    requires
        forall|i: int| 0 <= i < es.len() ==> #[trigger] es[i].0 != w,
    ensures
        drop_workflow(es, w) == es,
    decreases es.len(),
{
    if es.len() > 0 {
        lemma_drop_workflow_absent(es.drop_last(), w);
        assert(es.drop_last().push(es.last()) =~= es);
    }
}

/// Law: reconciling a workflow's cron nodes and then removing the workflow
/// leaves the table as removing it alone would; so a table with no entry for
/// the workflow comes back unchanged.
pub proof fn law_reconcile_then_remove(es: Seq<JobView>, w: Seq<char>, ns: Seq<Seq<char>>, hs: Seq<u128>)
    requires
        ns.len() == hs.len(),
    ensures
        drop_workflow(reconciled(es, w, ns, hs), w) == drop_workflow(es, w),
        (forall|i: int| 0 <= i < es.len() ==> #[trigger] es[i].0 != w) ==> drop_workflow(
            reconciled(es, w, ns, hs),
            w,
        ) == es,
{
    lemma_drop_workflow_put(drop_stale(es, w, ns), w, ns, hs);
    lemma_drop_workflow_after_drop_stale(es, w, ns);
    if forall|i: int| 0 <= i < es.len() ==> #[trigger] es[i].0 != w {
        lemma_drop_workflow_absent(es, w);
    }
}

/// Law: a reader's `where` filter that holds `;` or a quote is dropped
/// without error: the query has no WHERE clause.
pub proof fn law_unsafe_where_is_dropped(n: NodeView, t: Seq<char>, w: Seq<char>, i: int)
    requires
        n.params.text_field("table"@) == Some(t),
        is_identifier(t),
        n.params.text_field("where"@) == Some(w),
        0 <= i < w.len(),
        w[i] == ';' || w[i] == '\'' || w[i] == '"',
    ensures
        read_plan(n) == Ok::<(Seq<char>, Seq<char>), NodeErrorKind>((select_sql(t, None, limit_of(n.params)), t)),
{
    assert(!(alnum(w[i]) || where_symbol(w[i])));
    assert(!is_safe_filter(w));
}

} // verus!
