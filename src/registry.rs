//! The compiled-workflow registry: a table of compiled workflows, replaced
//! as a whole behind an atomically swapped pointer on every change.
use vstd::prelude::*;
use std::sync::Arc;
use arc_swap::ArcSwap;
use crate::text::same_text;
use crate::workflow::{
    compile_failure, compile_workflow, compiled_form, texts, CompileError, CompiledView,
    CompiledWorkflow, Workflow, WorkflowView,
};

verus! {

/// Why a reload did not happen.
#[derive(Clone, Copy, Debug, PartialEq, Eq, Structural)]
pub enum RegistryError {
    /// The store has no workflow with that identifier.
    NotFound,
    /// The stored workflow does not compile.
    Compile(CompileError),
}

/// The entry for `id` in a table: the first one with that identifier.
pub open spec fn lookup(entries: Seq<CompiledView>, id: Seq<char>) -> Option<CompiledView> {
    if exists|i: int| 0 <= i < entries.len() && entries[i].workflow.id == id {
        Some(entries[choose|i: int| 0 <= i < entries.len() && entries[i].workflow.id == id])
    } else {
        None
    }
}

/// The table with `c` in place of the entry for its identifier, or with `c` added.
pub open spec fn upsert(entries: Seq<CompiledView>, c: CompiledView) -> Seq<CompiledView> {
    if exists|i: int| 0 <= i < entries.len() && entries[i].workflow.id == c.workflow.id {
        entries.update(
            choose|i: int| 0 <= i < entries.len() && entries[i].workflow.id == c.workflow.id,
            c,
        )
    } else {
        entries.push(c)
    }
}

/// The table without the entry for `id`.
pub open spec fn without(entries: Seq<CompiledView>, id: Seq<char>) -> Seq<CompiledView> {
    if exists|i: int| 0 <= i < entries.len() && entries[i].workflow.id == id {
        entries.remove(choose|i: int| 0 <= i < entries.len() && entries[i].workflow.id == id)
    } else {
        entries
    }
}

/// No two entries share an identifier, and each is the compiled form of its workflow.
pub open spec fn table_ok(entries: Seq<CompiledView>) -> bool {
    &&& forall|i: int, j: int|
        0 <= i < j < entries.len() ==> #[trigger] entries[i].workflow.id != #[trigger] entries[j].workflow.id
    &&& forall|i: int|
        0 <= i < entries.len() ==> compile_failure(#[trigger] entries[i].workflow) is None && entries[i]
            == compiled_form(entries[i].workflow)
}

/// A snapshot of the registry: compiled workflows with distinct identifiers.
pub struct WorkflowTable {
    entries: Vec<CompiledWorkflow>,
}

impl WorkflowTable {
    #[verifier::type_invariant]
    closed spec fn well_formed(&self) -> bool {
        table_ok(self.entries@.map_values(|c: CompiledWorkflow| c@))
    }

    /// The entries, in insertion order.
    pub closed spec fn entries(&self) -> Seq<CompiledView> {
        self.entries@.map_values(|c: CompiledWorkflow| c@)
    }

    /// An empty table.
    pub fn new() -> (r: Self)
        ensures
            r.entries() == Seq::<CompiledView>::empty(),
    {
        let r = WorkflowTable { entries: Vec::new() };
        assert(r.entries() =~= Seq::<CompiledView>::empty());
        r
    }

    /// The number of compiled workflows.
    pub fn len(&self) -> (r: usize)
        ensures
            r == self.entries().len(),
    {
        self.entries.len()
    }

    fn index_of(&self, id: &str) -> (r: Option<usize>)
        ensures
            match r {
                Some(i) => i < self.entries().len() && self.entries()[i as int].workflow.id == id@,
                None => forall|i: int| 0 <= i < self.entries().len() ==> self.entries()[i].workflow.id != id@,
            },
    {
        let mut i: usize = 0;
        while i < self.entries.len()
            invariant
                i <= self.entries.len(),
                forall|j: int| 0 <= j < i ==> self.entries()[j].workflow.id != id@,
            decreases self.entries.len() - i,
        {
            assert(self.entries()[i as int] == self.entries@[i as int]@);
            if same_text(self.entries[i].workflow.id.as_str(), id) {
                return Some(i);
            }
            i = i + 1;
        }
        None
    }

    /// The compiled workflow with identifier `id`.
    pub fn get(&self, id: &str) -> (r: Option<&CompiledWorkflow>)
        ensures
            match r {
                Some(c) => lookup(self.entries(), id@) == Some(c@),
                None => lookup(self.entries(), id@) is None,
            },
    {
        proof {
            use_type_invariant(self);
        }
        match self.index_of(id) {
            Some(i) => {
                let ghost es = self.entries();
                proof {
                    let c = choose|k: int| 0 <= k < es.len() && es[k].workflow.id == id@;
                    if c != i as int {
                        if c < i {
                            assert(es[c].workflow.id != es[i as int].workflow.id);
                        } else {
                            assert(es[i as int].workflow.id != es[c].workflow.id);
                        }
                    }
                }
                Some(&self.entries[i])
            },
            None => None,
        }
    }

    /// A copy of this table.
    pub fn duplicate(&self) -> (r: Self)
        ensures
            r.entries() == self.entries(),
    {
        proof {
            use_type_invariant(self);
        }
        WorkflowTable { entries: self.copy_entries() }
    }

    fn copy_entries(&self) -> (r: Vec<CompiledWorkflow>)
        ensures
            r@.map_values(|c: CompiledWorkflow| c@) == self.entries(),
    {
        let mut out: Vec<CompiledWorkflow> = Vec::new();
        let mut i: usize = 0;
        while i < self.entries.len()
            invariant
                i <= self.entries.len(),
                out@.map_values(|c: CompiledWorkflow| c@) == self.entries().subrange(0, i as int),
            decreases self.entries.len() - i,
        {
            let c = self.entries[i].duplicate();
            let ghost before = out@;
            out.push(c);
            assert(out@.map_values(|c: CompiledWorkflow| c@) =~= before.map_values(|c: CompiledWorkflow| c@).push(
                c@,
            ));
            assert(self.entries().subrange(0, i + 1) =~= self.entries().subrange(0, i as int).push(
                self.entries()[i as int],
            ));
            i = i + 1;
        }
        assert(self.entries().subrange(0, self.entries().len() as int) =~= self.entries());
        out
    }

    /// Puts the compiled workflow `c` in the table, replacing the entry for its identifier.
    pub fn insert(&mut self, c: CompiledWorkflow)
        requires
            compile_failure(c.workflow@) is None,
            c@ == compiled_form(c.workflow@),
        ensures
            final(self).entries() == upsert(old(self).entries(), c@),
    {
        proof {
            use_type_invariant(&*self);
        }
        let ghost es = self.entries();
        let ghost cv = c@;
        match self.index_of(c.workflow.id.as_str()) {
            Some(i) => {
                let mut v = self.copy_entries();
                v.set(i, c);
                assert(v@.map_values(|c: CompiledWorkflow| c@) =~= es.update(i as int, cv));
                self.entries = v;
                proof {
                    let k = choose|k: int| 0 <= k < es.len() && es[k].workflow.id == cv.workflow.id;
                    if k != i as int {
                        if k < i {
                            assert(es[k].workflow.id != es[i as int].workflow.id);
                        } else {
                            assert(es[i as int].workflow.id != es[k].workflow.id);
                        }
                    }
                    assert(self.entries() =~= es.update(i as int, cv));
                }
            },
            None => {
                let mut v = self.copy_entries();
                v.push(c);
                assert(v@.map_values(|c: CompiledWorkflow| c@) =~= es.push(cv));
                self.entries = v;
            },
        }
    }

    /// Removes the entry for `id`, if any.
    pub fn remove(&mut self, id: &str)
        ensures
            final(self).entries() == without(old(self).entries(), id@),
    {
        proof {
            use_type_invariant(&*self);
        }
        let ghost es = self.entries();
        match self.index_of(id) {
            Some(i) => {
                let mut v = self.copy_entries();
                v.remove(i);
                assert(v@.map_values(|c: CompiledWorkflow| c@) =~= es.remove(i as int));
                self.entries = v;
                proof {
                    let k = choose|k: int| 0 <= k < es.len() && es[k].workflow.id == id@;
                    if k != i as int {
                        if k < i {
                            assert(es[k].workflow.id != es[i as int].workflow.id);
                        } else {
                            assert(es[i as int].workflow.id != es[k].workflow.id);
                        }
                    }
                    assert(self.entries() =~= es.remove(i as int));
                }
            },
            None => {},
        }
    }

    /// Compiles `stored` and puts it in the table under its identifier; a
    /// missing or invalid workflow leaves the table as it was.
    pub fn reload(&mut self, stored: Option<Workflow>) -> (r: Result<(), RegistryError>)
        ensures
            match stored {
                None => r == Err::<(), RegistryError>(RegistryError::NotFound) && final(self).entries() == old(
                    self,
                ).entries(),
                Some(w) => match compile_failure(w@) {
                    Some(e) => r == Err::<(), RegistryError>(RegistryError::Compile(e)) && final(self).entries()
                        == old(self).entries(),
                    None => r is Ok && final(self).entries() == upsert(old(self).entries(), compiled_form(w@)),
                },
            },
    {
        match stored {
            None => Err(RegistryError::NotFound),
            Some(w) => match compile_workflow(w) {
                Ok(c) => {
                    self.insert(c);
                    Ok(())
                },
                Err(e) => Err(RegistryError::Compile(e)),
            },
        }
    }

    /// The identifiers of the compiled workflows.
    pub fn ids(&self) -> (r: Vec<String>)
        ensures
            texts(r@) == self.entries().map_values(|c: CompiledView| c.workflow.id),
    {
        let mut out: Vec<String> = Vec::new();
        let mut i: usize = 0;
        while i < self.entries.len()
            invariant
                i <= self.entries.len(),
                texts(out@) == self.entries().subrange(0, i as int).map_values(|c: CompiledView| c.workflow.id),
            decreases self.entries.len() - i,
        {
            let ghost before = out@;
            out.push(self.entries[i].workflow.id.clone());
            assert(texts(out@) =~= texts(before).push(self.entries()[i as int].workflow.id));
            assert(self.entries().subrange(0, i + 1).map_values(|c: CompiledView| c.workflow.id) =~= self.entries().subrange(
                0,
                i as int,
            ).map_values(|c: CompiledView| c.workflow.id).push(self.entries()[i as int].workflow.id));
            i = i + 1;
        }
        assert(self.entries().subrange(0, self.entries().len() as int) =~= self.entries());
        out
    }

    /// Copies of the workflows in the table.
    pub fn workflows(&self) -> (r: Vec<Workflow>)
        ensures
            r@.map_values(|w: Workflow| w@) == self.entries().map_values(|c: CompiledView| c.workflow),
    {
        let mut out: Vec<Workflow> = Vec::new();
        let mut i: usize = 0;
        while i < self.entries.len()
            invariant
                i <= self.entries.len(),
                out@.map_values(|w: Workflow| w@) == self.entries().subrange(0, i as int).map_values(
                    |c: CompiledView| c.workflow,
                ),
            decreases self.entries.len() - i,
        {
            let w = self.entries[i].workflow.duplicate();
            let ghost before = out@;
            out.push(w);
            assert(out@.map_values(|w: Workflow| w@) =~= before.map_values(|w: Workflow| w@).push(w@));
            assert(self.entries().subrange(0, i + 1).map_values(|c: CompiledView| c.workflow) =~= self.entries().subrange(
                0,
                i as int,
            ).map_values(|c: CompiledView| c.workflow).push(self.entries()[i as int].workflow));
            i = i + 1;
        }
        assert(self.entries().subrange(0, self.entries().len() as int) =~= self.entries());
        out
    }

    /// Every webhook path of every compiled workflow, with that workflow's
    /// identifier, in table order.
    pub fn webhook_routes(&self) -> (r: Vec<(String, String)>)
        ensures
            pairs_view(r@) == routes_of(self.entries()),
    {
        let mut out: Vec<(String, String)> = Vec::new();
        let mut i: usize = 0;
        while i < self.entries.len()
            invariant
                i <= self.entries.len(),
                pairs_view(out@) == routes_of(self.entries().subrange(0, i as int)),
            decreases self.entries.len() - i,
        {
            let c = &self.entries[i];
            let ghost cv = self.entries()[i as int];
            assert(cv == c@);
            let ghost base = pairs_view(out@);
            let mut j: usize = 0;
            while j < c.webhook_paths.len()
                invariant
                    cv == c@,
                    j <= c.webhook_paths.len(),
                    pairs_view(out@) == base + cv.webhook_paths.subrange(0, j as int).map_values(
                        |p: Seq<char>| (p, cv.workflow.id),
                    ),
                decreases c.webhook_paths.len() - j,
            {
                let ghost before = out@;
                let p = c.webhook_paths[j].clone();
                let id = c.workflow.id.clone();
                out.push((p, id));
                assert(pairs_view(out@) =~= pairs_view(before).push((cv.webhook_paths[j as int], cv.workflow.id)));
                assert(cv.webhook_paths.subrange(0, j + 1).map_values(|p: Seq<char>| (p, cv.workflow.id)) =~= cv.webhook_paths.subrange(
                    0,
                    j as int,
                ).map_values(|p: Seq<char>| (p, cv.workflow.id)).push((cv.webhook_paths[j as int], cv.workflow.id)));
                j = j + 1;
            }
            assert(cv.webhook_paths.subrange(0, cv.webhook_paths.len() as int) =~= cv.webhook_paths);
            assert(self.entries().subrange(0, i + 1).drop_last() =~= self.entries().subrange(0, i as int));
            i = i + 1;
        }
        assert(self.entries().subrange(0, self.entries().len() as int) =~= self.entries());
        out
    }
}

pub open spec fn pairs_view(v: Seq<(String, String)>) -> Seq<(Seq<char>, Seq<char>)> {
    v.map_values(|p: (String, String)| (p.0@, p.1@))
}

/// Each compiled workflow's webhook paths paired with its identifier, in table order.
pub open spec fn routes_of(es: Seq<CompiledView>) -> Seq<(Seq<char>, Seq<char>)>
    decreases es.len(),
{
    if es.len() == 0 {
        Seq::empty()
    } else {
        routes_of(es.drop_last()) + es.last().webhook_paths.map_values(|p: Seq<char>| (p, es.last().workflow.id))
    }
}

/// The table that loading `ws` in order gives: each compiled form put in
/// place of the entry for its identifier.
pub open spec fn loaded(ws: Seq<WorkflowView>) -> Seq<CompiledView>
    decreases ws.len(),
{
    if ws.len() == 0 {
        Seq::empty()
    } else {
        upsert(loaded(ws.drop_last()), compiled_form(ws.last()))
    }
}

/// The workflows of a table, in order.
pub open spec fn table_workflows(t: Seq<CompiledView>) -> Seq<WorkflowView> {
    t.map_values(|c: CompiledView| c.workflow)
}

/// The identifiers of a table, in order.
pub open spec fn table_ids(t: Seq<CompiledView>) -> Seq<Seq<char>> {
    t.map_values(|c: CompiledView| c.workflow.id)
}

pub open spec fn views(ws: Seq<Workflow>) -> Seq<WorkflowView> {
    ws.map_values(|w: Workflow| w@)
}

/// `ws` all compile, or `e` is why the first that does not fails.
pub open spec fn load_failure(ws: Seq<WorkflowView>, e: CompileError) -> bool {
    exists|k: int|
        0 <= k < ws.len() && compile_failure(#[trigger] ws[k]) == Some(e) && forall|j: int|
            0 <= j < k ==> compile_failure(#[trigger] ws[j]) is None
}

/// Compiles every stored workflow, in order, into a fresh table; the first
/// that does not compile fails the whole load.
pub fn compile_all(stored: Vec<Workflow>) -> (r: Result<WorkflowTable, CompileError>)
    ensures
        match r {
            Ok(t) => (forall|k: int| 0 <= k < stored@.len() ==> compile_failure(#[trigger] stored@[k]@) is None)
                && t.entries() == loaded(views(stored@)),
            Err(e) => load_failure(views(stored@), e),
        },
{
    let ghost vs = views(stored@);
    let mut table = WorkflowTable::new();
    let mut i: usize = 0;
    assert(vs.subrange(0, 0) =~= Seq::<WorkflowView>::empty());
    while i < stored.len()
        invariant
            vs == views(stored@),
            i <= stored.len(),
            forall|k: int| 0 <= k < i ==> compile_failure(#[trigger] stored@[k]@) is None,
            table.entries() == loaded(vs.subrange(0, i as int)),
        decreases stored.len() - i,
    {
        let w = stored[i].duplicate();
        assert(vs[i as int] == stored@[i as int]@);
        assert(vs.subrange(0, i + 1).drop_last() =~= vs.subrange(0, i as int));
        match compile_workflow(w) {
            Ok(c) => {
                table.insert(c);
            },
            Err(e) => {
                assert(compile_failure(vs[i as int]) == Some(e));
                assert forall|j: int| 0 <= j < i implies compile_failure(#[trigger] vs[j]) is None by {
                    assert(vs[j] == stored@[j]@);
                }
                return Err(e);
            },
        }
        i = i + 1;
    }
    assert(vs.subrange(0, vs.len() as int) =~= vs);
    Ok(table)
}

/// The current table, behind a pointer that is swapped atomically. Readers
/// take the whole snapshot at once; writers publish a new table.
#[verifier::external_body]
pub struct TableCell {
    cell: ArcSwap<WorkflowTable>,
}

/// Relies on ArcSwap::from_pointee: a cell holding `t`.
#[verifier::external_body]
fn new_cell(t: WorkflowTable) -> TableCell {
    TableCell { cell: ArcSwap::from_pointee(t) }
}

/// Relies on ArcSwapAny::load_full: the table most recently stored, by any thread.
#[verifier::external_body]
fn load_table(c: &TableCell) -> Arc<WorkflowTable> {
    c.cell.load_full()
}

/// Relies on ArcSwapAny::store: publishes `t` for later loads; returns a
/// pointer to the table it published.
#[verifier::external_body]
fn store_table(c: &TableCell, t: WorkflowTable) -> (r: Arc<WorkflowTable>)
    ensures
        *r == t,
{
    let published = Arc::new(t);
    c.cell.store(Arc::clone(&published));
    published
}

/// The registry of compiled workflows, read lock-free on every trigger.
pub struct WorkflowRegistry {
    workflows: TableCell,
}

impl WorkflowRegistry {
    /// A registry with no workflows.
    pub fn new() -> Self {
        WorkflowRegistry { workflows: new_cell(WorkflowTable::new()) }
    }

    /// Replaces the table with one compiled from `stored`, and returns it; if
    /// one of them does not compile, nothing changes.
    pub fn init_from_storage(&self, stored: Vec<Workflow>) -> (r: Result<Arc<WorkflowTable>, RegistryError>)
        ensures
            match r {
                Ok(t) => (forall|k: int| 0 <= k < stored@.len() ==> compile_failure(#[trigger] stored@[k]@) is None)
                    && t.entries() == loaded(views(stored@)),
                Err(RegistryError::Compile(e)) => load_failure(views(stored@), e),
                Err(RegistryError::NotFound) => false,
            },
    {
        match compile_all(stored) {
            Ok(t) => Ok(store_table(&self.workflows, t)),
            Err(e) => Err(RegistryError::Compile(e)),
        }
    }

    /// Compiles `stored`, the store's current definition of `workflow_id`,
    /// publishes a copy of the current table with it in place, and returns
    /// that table. A missing definition, or one under another identifier, is
    /// `NotFound`.
    pub fn reload_workflow(&self, workflow_id: &str, stored: Option<Workflow>) -> (r: Result<Arc<WorkflowTable>, RegistryError>)
        ensures
            match stored {
                None => r == Err::<Arc<WorkflowTable>, RegistryError>(RegistryError::NotFound),
                Some(w) => if w@.id != workflow_id@ {
                    r == Err::<Arc<WorkflowTable>, RegistryError>(RegistryError::NotFound)
                } else {
                    match compile_failure(w@) {
                        Some(e) => r == Err::<Arc<WorkflowTable>, RegistryError>(RegistryError::Compile(e)),
                        None => match r {
                            Ok(t) => lookup(t.entries(), w@.id) == Some(compiled_form(w@)) && exists|base: Seq<CompiledView>|
                                table_ok(base) && #[trigger] upsert(base, compiled_form(w@)) == t.entries(),
                            Err(_) => false,
                        },
                    }
                },
            },
    {
        match &stored {
            None => {
                return Err(RegistryError::NotFound);
            },
            Some(w) => {
                if !same_text(w.id.as_str(), workflow_id) {
                    return Err(RegistryError::NotFound);
                }
            },
        }
        let ghost wv = stored.unwrap()@;
        let current = load_table(&self.workflows);
        proof {
            use_type_invariant(&*current);
        }
        let ghost base = (*current).entries();
        let mut next = (*current).duplicate();
        match next.reload(stored) {
            Ok(_) => {
                let t = store_table(&self.workflows, next);
                proof {
                    crate::laws::law_reload_then_get(base, wv);
                    assert(table_ok(base) && upsert(base, compiled_form(wv)) == t.entries());
                }
                Ok(t)
            },
            Err(e) => Err(e),
        }
    }
    /// A copy of the compiled workflow `workflow_id` in the current snapshot;
    /// what it holds is the compiled form of its workflow.
    pub fn get_workflow(&self, workflow_id: &str) -> (r: Option<CompiledWorkflow>)
        ensures
            r matches Some(c) ==> c@.workflow.id == workflow_id@ && compile_failure(c@.workflow) is None && c@
                == compiled_form(c@.workflow),
    {
        let current = load_table(&self.workflows);
        let t: &WorkflowTable = &*current;
        proof {
            use_type_invariant(t);
        }
        match t.get(workflow_id) {
            Some(c) => {
                let ghost es = t.entries();
                proof {
                    let i = choose|i: int| 0 <= i < es.len() && es[i].workflow.id == workflow_id@;
                    assert(compile_failure(es[i].workflow) is None);
                }
                Some(c.duplicate())
            },
            None => None,
        }
    }

    /// The current snapshot: a valid table.
    pub fn snapshot(&self) -> (r: Arc<WorkflowTable>)
        ensures
            table_ok(r.entries()),
    {
        let current = load_table(&self.workflows);
        proof {
            use_type_invariant(&*current);
        }
        current
    }

    /// Copies of all workflows in the current snapshot, in table order.
    pub fn get_all_workflows(&self) -> (r: Vec<Workflow>)
        ensures
            exists|t: Seq<CompiledView>|
                table_ok(t) && #[trigger] table_workflows(t) == views(r@),
    {
        let current = self.snapshot();
        let r = (*current).workflows();
        assert(table_workflows((*current).entries()) =~= views(r@));
        r
    }

    /// The identifiers in the current snapshot, in table order.
    pub fn list_workflow_ids(&self) -> (r: Vec<String>)
        ensures
            exists|t: Seq<CompiledView>|
                table_ok(t) && #[trigger] table_ids(t) == texts(r@),
    {
        let current = self.snapshot();
        let r = (*current).ids();
        assert(table_ids((*current).entries()) == texts(r@));
        r
    }

    /// Every webhook path in the current snapshot with its workflow's identifier.
    pub fn get_webhook_routes(&self) -> (r: Vec<(String, String)>)
        ensures
            exists|t: Seq<CompiledView>| table_ok(t) && #[trigger] routes_of(t) == pairs_view(r@),
    {
        let current = self.snapshot();
        let r = (*current).webhook_routes();
        assert(table_ok((*current).entries()));
        r
    }

    /// Publishes a copy of the current table without `workflow_id`, when it
    /// holds that workflow; returns the table now current, which does not.
    pub fn remove_workflow(&self, workflow_id: &str) -> (r: Arc<WorkflowTable>)
        ensures
            lookup(r.entries(), workflow_id@) is None,
    {
        let current = self.snapshot();
        if (*current).get(workflow_id).is_some() {
            let ghost base = (*current).entries();
            let mut next = (*current).duplicate();
            next.remove(workflow_id);
            let t = store_table(&self.workflows, next);
            proof {
                crate::laws::law_remove_then_get(base, workflow_id@);
            }
            t
        } else {
            current
        }
    }
}

impl WorkflowTable {
    /// Every table is valid: distinct identifiers, each entry the compiled
    /// form of its workflow. Calling this makes that fact available.
    pub fn entries_ok(&self)
        ensures
            table_ok(self.entries()),
    {
        proof {
            use_type_invariant(self);
        }
    }
}

} // verus!
