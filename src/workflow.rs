//! Workflow definitions (nodes, edges), their mathematical views, and
//! compilation into the form the registry keeps.
use vstd::prelude::*;
use vstd::string::*;
use petgraph::graph::DiGraph;
use crate::json::{JsonData, JsonValue};
use crate::text::same_text;
use crate::graph::{
    acyclic, add_graph_edge, add_graph_node, as_ints, graph_edges, graph_node_count, new_graph,
    topological_order,
};

verus! {

/// The kinds of node. `Webhook` and `CronTrigger` are entry points; the
/// MCP, WebSocket and MQTT triggers are entry anchors that never run.
#[derive(Clone, Copy, Debug, PartialEq, Eq, Structural)]
pub enum NodeType {
    Webhook,
    FunLogic,
    SimpleTableWriter,
    SimpleTableReader,
    SimpleTableQuery,
    CronTrigger,
    HTTPClient,
    PGQuery,
    PGDynTableWriter,
    MCPTrigger,
    WebSocketTrigger,
    MQTTTrigger,
}

impl NodeType {
    /// A node where execution may start.
    pub open spec fn spec_is_entry(self) -> bool {
        self == NodeType::Webhook || self == NodeType::CronTrigger
    }

    /// A trigger node: an entry point that is never executed itself.
    pub open spec fn spec_is_trigger(self) -> bool {
        self.spec_is_entry() || self == NodeType::MCPTrigger || self == NodeType::WebSocketTrigger
            || self == NodeType::MQTTTrigger
    }

    pub open spec fn spec_name(self) -> Seq<char> {
        match self {
            NodeType::Webhook => "Webhook"@,
            NodeType::FunLogic => "FunLogic"@,
            NodeType::SimpleTableWriter => "SimpleTableWriter"@,
            NodeType::SimpleTableReader => "SimpleTableReader"@,
            NodeType::SimpleTableQuery => "SimpleTableQuery"@,
            NodeType::CronTrigger => "CronTrigger"@,
            NodeType::HTTPClient => "HTTPClient"@,
            NodeType::PGQuery => "PGQuery"@,
            NodeType::PGDynTableWriter => "PGDynTableWriter"@,
            NodeType::MCPTrigger => "MCPTrigger"@,
            NodeType::WebSocketTrigger => "WebSocketTrigger"@,
            NodeType::MQTTTrigger => "MQTTTrigger"@,
        }
    }

    pub fn is_entry(&self) -> (r: bool)
        ensures
            r == self.spec_is_entry(),
    {
        match self {
            NodeType::Webhook | NodeType::CronTrigger => true,
            _ => false,
        }
    }

    pub fn is_trigger(&self) -> (r: bool)
        ensures
            r == self.spec_is_trigger(),
    {
        match self {
            NodeType::Webhook | NodeType::CronTrigger | NodeType::MCPTrigger
            | NodeType::WebSocketTrigger | NodeType::MQTTTrigger => true,
            _ => false,
        }
    }

    /// The variant's name, as recorded in execution metadata.
    pub fn name(&self) -> (r: String)
        ensures
            r@ == self.spec_name(),
    {
        match self {
            NodeType::Webhook => String::from_str("Webhook"),
            NodeType::FunLogic => String::from_str("FunLogic"),
            NodeType::SimpleTableWriter => String::from_str("SimpleTableWriter"),
            NodeType::SimpleTableReader => String::from_str("SimpleTableReader"),
            NodeType::SimpleTableQuery => String::from_str("SimpleTableQuery"),
            NodeType::CronTrigger => String::from_str("CronTrigger"),
            NodeType::HTTPClient => String::from_str("HTTPClient"),
            NodeType::PGQuery => String::from_str("PGQuery"),
            NodeType::PGDynTableWriter => String::from_str("PGDynTableWriter"),
            NodeType::MCPTrigger => String::from_str("MCPTrigger"),
            NodeType::WebSocketTrigger => String::from_str("WebSocketTrigger"),
            NodeType::MQTTTrigger => String::from_str("MQTTTrigger"),
        }
    }
}

/// A dependency `from -> to` between two nodes of a workflow.
pub struct Edge {
    pub from: String,
    pub to: String,
}

/// One processing unit of a workflow.
pub struct Node {
    pub id: String,
    pub node_type: NodeType,
    pub params: JsonValue,
    pub inputs: Option<Vec<String>>,
    pub outputs: Option<Vec<String>>,
    pub secrets: Option<Vec<String>>,
}

/// A workflow definition: nodes and the edges between them.
pub struct Workflow {
    pub id: String,
    pub name: String,
    pub nodes: Vec<Node>,
    pub edges: Vec<Edge>,
}

pub struct NodeView {
    pub id: Seq<char>,
    pub node_type: NodeType,
    pub params: JsonData,
    pub inputs: Option<Seq<Seq<char>>>,
    pub outputs: Option<Seq<Seq<char>>>,
    pub secrets: Option<Seq<Seq<char>>>,
}

pub struct WorkflowView {
    pub id: Seq<char>,
    pub name: Seq<char>,
    pub nodes: Seq<NodeView>,
    pub edges: Seq<(Seq<char>, Seq<char>)>,
}

pub open spec fn texts(v: Seq<String>) -> Seq<Seq<char>> {
    v.map_values(|s: String| s@)
}

pub open spec fn opt_texts(o: Option<Vec<String>>) -> Option<Seq<Seq<char>>> {
    match o {
        Some(v) => Some(texts(v@)),
        None => None,
    }
}

impl View for Edge {
    type V = (Seq<char>, Seq<char>);

    open spec fn view(&self) -> (Seq<char>, Seq<char>) {
        (self.from@, self.to@)
    }
}

impl View for Node {
    type V = NodeView;

    open spec fn view(&self) -> NodeView {
        NodeView {
            id: self.id@,
            node_type: self.node_type,
            params: self.params@,
            inputs: opt_texts(self.inputs),
            outputs: opt_texts(self.outputs),
            secrets: opt_texts(self.secrets),
        }
    }
}

impl View for Workflow {
    type V = WorkflowView;

    open spec fn view(&self) -> WorkflowView {
        WorkflowView {
            id: self.id@,
            name: self.name@,
            nodes: self.nodes@.map_values(|n: Node| n@),
            edges: self.edges@.map_values(|e: Edge| e@),
        }
    }
}

/// A copy of a list of strings.
pub fn clone_texts(v: &Vec<String>) -> (r: Vec<String>)
    ensures
        r@ == v@,
{
    let mut out: Vec<String> = Vec::new();
    let mut i: usize = 0;
    while i < v.len()
        invariant
            i <= v.len(),
            out@ == v@.subrange(0, i as int),
        decreases v.len() - i,
    {
        out.push(v[i].clone());
        i = i + 1;
        assert(out@ =~= v@.subrange(0, i as int));
    }
    assert(out@ =~= v@);
    out
}

pub fn clone_opt_texts(o: &Option<Vec<String>>) -> (r: Option<Vec<String>>)
    ensures
        opt_texts(r) == opt_texts(*o),
{
    match o {
        Some(v) => Some(clone_texts(v)),
        None => None,
    }
}

impl Node {
    /// A copy of this node.
    pub fn duplicate(&self) -> (r: Node)
        ensures
            r@ == self@,
    {
        Node {
            id: self.id.clone(),
            node_type: self.node_type,
            params: self.params.deep_clone(),
            inputs: clone_opt_texts(&self.inputs),
            outputs: clone_opt_texts(&self.outputs),
            secrets: clone_opt_texts(&self.secrets),
        }
    }
}

impl Edge {
    pub fn duplicate(&self) -> (r: Edge)
        ensures
            r@ == self@,
    {
        Edge { from: self.from.clone(), to: self.to.clone() }
    }
}

impl Workflow {
    /// A copy of this workflow.
    pub fn duplicate(&self) -> (r: Workflow)
        ensures
            r@ == self@,
    {
        let mut nodes: Vec<Node> = Vec::new();
        let mut i: usize = 0;
        while i < self.nodes.len()
            invariant
                i <= self.nodes.len(),
                nodes@.map_values(|n: Node| n@) == self.nodes@.subrange(0, i as int).map_values(|n: Node| n@),
            decreases self.nodes.len() - i,
        {
            let d = self.nodes[i].duplicate();
            let ghost before = nodes@;
            nodes.push(d);
            assert(nodes@.map_values(|n: Node| n@) =~= before.map_values(|n: Node| n@).push(d@));
            assert(self.nodes@.subrange(0, i + 1).map_values(|n: Node| n@) =~= self.nodes@.subrange(
                0,
                i as int,
            ).map_values(|n: Node| n@).push(self.nodes@[i as int]@));
            i = i + 1;
        }
        let mut edges: Vec<Edge> = Vec::new();
        let mut j: usize = 0;
        while j < self.edges.len()
            invariant
                j <= self.edges.len(),
                edges@.map_values(|e: Edge| e@) == self.edges@.subrange(0, j as int).map_values(|e: Edge| e@),
            decreases self.edges.len() - j,
        {
            let d = self.edges[j].duplicate();
            let ghost before = edges@;
            edges.push(d);
            assert(edges@.map_values(|e: Edge| e@) =~= before.map_values(|e: Edge| e@).push(d@));
            assert(self.edges@.subrange(0, j + 1).map_values(|e: Edge| e@) =~= self.edges@.subrange(
                0,
                j as int,
            ).map_values(|e: Edge| e@).push(self.edges@[j as int]@));
            j = j + 1;
        }
        assert(self.nodes@.subrange(0, self.nodes@.len() as int) =~= self.nodes@);
        assert(self.edges@.subrange(0, self.edges@.len() as int) =~= self.edges@);
        Workflow { id: self.id.clone(), name: self.name.clone(), nodes, edges }
    }
}

/// The identifiers of `nodes`, in order.
pub open spec fn node_ids(nodes: Seq<NodeView>) -> Seq<Seq<char>> {
    nodes.map_values(|n: NodeView| n.id)
}

/// The position of the first occurrence of `k` in `ks`.
pub open spec fn first_index(ks: Seq<Seq<char>>, k: Seq<char>) -> Option<int> {
    if exists|i: int| 0 <= i < ks.len() && ks[i] == k {
        Some(choose|i: int| 0 <= i < ks.len() && ks[i] == k && forall|j: int| 0 <= j < i ==> ks[j] != k)
    } else {
        None
    }
}

pub proof fn lemma_first_index_found(ks: Seq<Seq<char>>, k: Seq<char>, i: int)
    requires
        0 <= i < ks.len(),
        ks[i] == k,
        forall|j: int| 0 <= j < i ==> ks[j] != k,
    ensures
        first_index(ks, k) == Some(i),
{
    let c = choose|c: int| 0 <= c < ks.len() && ks[c] == k && forall|j: int| 0 <= j < c ==> ks[j] != k;
    assert(0 <= c < ks.len() && ks[c] == k && forall|j: int| 0 <= j < c ==> ks[j] != k);
    if c < i {
        assert(ks[c] != k);
    }
    if i < c {
        assert(ks[i] != k);
    }
}

/// The position of the node named `id`: the first one, if any.
pub fn position_of(nodes: &Vec<Node>, id: &str) -> (r: Option<usize>)
    ensures
        match r {
            Some(i) => first_index(node_ids(nodes@.map_values(|n: Node| n@)), id@) == Some(i as int),
            None => first_index(node_ids(nodes@.map_values(|n: Node| n@)), id@) is None,
        },
{
    let ghost ks = node_ids(nodes@.map_values(|n: Node| n@));
    let mut i: usize = 0;
    while i < nodes.len()
        invariant
            ks == node_ids(nodes@.map_values(|n: Node| n@)),
            ks.len() == nodes.len(),
            i <= nodes.len(),
            forall|j: int| 0 <= j < i ==> ks[j] != id@,
        decreases nodes.len() - i,
    {
        assert(ks[i as int] == nodes@[i as int].id@);
        if same_text(nodes[i].id.as_str(), id) {
            proof {
                lemma_first_index_found(ks, id@, i as int);
            }
            return Some(i);
        }
        i = i + 1;
    }
    None
}

/// No two nodes share an identifier.
pub open spec fn ids_unique(nodes: Seq<NodeView>) -> bool {
    forall|i: int, j: int| 0 <= i < j < nodes.len() ==> nodes[i].id != nodes[j].id
}

/// Both ends of every edge name a node.
pub open spec fn edges_known(w: WorkflowView) -> bool {
    forall|e: int|
        0 <= e < w.edges.len() ==> first_index(node_ids(w.nodes), #[trigger] w.edges[e].0) is Some
            && first_index(node_ids(w.nodes), w.edges[e].1) is Some
}

pub open spec fn pos_or_none(ks: Seq<Seq<char>>, k: Seq<char>) -> int {
    match first_index(ks, k) {
        Some(i) => i,
        None => -1,
    }
}

/// The edges of `w` as pairs of node positions.
pub open spec fn index_edges(w: WorkflowView) -> Seq<(int, int)> {
    w.edges.map_values(
        |e: (Seq<char>, Seq<char>)|
            (pos_or_none(node_ids(w.nodes), e.0), pos_or_none(node_ids(w.nodes), e.1)),
    )
}

/// The graph of `w` has no directed cycle.
pub open spec fn workflow_acyclic(w: WorkflowView) -> bool {
    acyclic(w.nodes.len(), index_edges(w))
}

/// The `path` parameters of the `Webhook` nodes, in node order.
pub open spec fn webhook_paths_of(nodes: Seq<NodeView>) -> Seq<Seq<char>>
    decreases nodes.len(),
{
    if nodes.len() == 0 {
        Seq::empty()
    } else {
        let rest = webhook_paths_of(nodes.drop_last());
        let n = nodes.last();
        if n.node_type == NodeType::Webhook && n.params.text_field("path"@) is Some {
            rest.push(n.params.text_field("path"@).unwrap())
        } else {
            rest
        }
    }
}

/// The identifiers of the entry nodes (`Webhook` and `CronTrigger`), in node order.
pub open spec fn start_ids_of(nodes: Seq<NodeView>) -> Seq<Seq<char>>
    decreases nodes.len(),
{
    if nodes.len() == 0 {
        Seq::empty()
    } else {
        let rest = start_ids_of(nodes.drop_last());
        let n = nodes.last();
        if n.node_type.spec_is_entry() {
            rest.push(n.id)
        } else {
            rest
        }
    }
}

/// Why a workflow does not compile.
#[derive(Clone, Copy, Debug, PartialEq, Eq, Structural)]
pub enum CompileError {
    /// The workflow has no nodes.
    EmptyWorkflow,
    /// More nodes or edges than a graph can index.
    TooLarge,
    /// Two nodes share an identifier.
    DuplicateNodeId,
    /// An edge names a node that does not exist.
    UnknownEdgeEndpoint,
    /// The edges form a cycle.
    Cycle,
    /// No `Webhook` or `CronTrigger` node.
    NoStartNode,
}

/// The first invariant that `w` breaks, checked in this order.
pub open spec fn compile_failure(w: WorkflowView) -> Option<CompileError> {
    if w.nodes.len() == 0 {
        Some(CompileError::EmptyWorkflow)
    } else if w.nodes.len() >= u32::MAX || w.edges.len() >= u32::MAX {
        Some(CompileError::TooLarge)
    } else if !ids_unique(w.nodes) {
        Some(CompileError::DuplicateNodeId)
    } else if !edges_known(w) {
        Some(CompileError::UnknownEdgeEndpoint)
    } else if !workflow_acyclic(w) {
        Some(CompileError::Cycle)
    } else if start_ids_of(w.nodes).len() == 0 {
        Some(CompileError::NoStartNode)
    } else {
        None
    }
}

/// A workflow with its entry nodes and webhook paths, ready to execute.
pub struct CompiledWorkflow {
    pub workflow: Workflow,
    pub webhook_paths: Vec<String>,
    pub start_node_ids: Vec<String>,
}

pub struct CompiledView {
    pub workflow: WorkflowView,
    pub webhook_paths: Seq<Seq<char>>,
    pub start_node_ids: Seq<Seq<char>>,
}

impl View for CompiledWorkflow {
    type V = CompiledView;

    open spec fn view(&self) -> CompiledView {
        CompiledView {
            workflow: self.workflow@,
            webhook_paths: texts(self.webhook_paths@),
            start_node_ids: texts(self.start_node_ids@),
        }
    }
}

/// What compiling a valid `w` yields.
pub open spec fn compiled_form(w: WorkflowView) -> CompiledView {
    CompiledView { workflow: w, webhook_paths: webhook_paths_of(w.nodes), start_node_ids: start_ids_of(w.nodes) }
}

impl CompiledWorkflow {
    pub fn duplicate(&self) -> (r: CompiledWorkflow)
        ensures
            r@ == self@,
    {
        CompiledWorkflow {
            workflow: self.workflow.duplicate(),
            webhook_paths: clone_texts(&self.webhook_paths),
            start_node_ids: clone_texts(&self.start_node_ids),
        }
    }
}

/// Why a workflow's graph cannot be built.
#[derive(Clone, Copy, Debug, PartialEq, Eq, Structural)]
pub enum GraphError {
    TooLarge,
    UnknownEdgeEndpoint,
}

/// Builds the graph of `w`: node `i` is `w.nodes[i]`, and each edge joins the
/// first nodes that carry its endpoint identifiers.
pub fn build_graph(w: &Workflow) -> (r: Result<DiGraph<usize, ()>, GraphError>)
    ensures
        match r {
            Ok(g) => w@.nodes.len() < u32::MAX && w@.edges.len() < u32::MAX && edges_known(w@)
                && graph_node_count(g) == w@.nodes.len() && graph_edges(g) == index_edges(w@),
            Err(GraphError::TooLarge) => w@.nodes.len() >= u32::MAX || w@.edges.len() >= u32::MAX,
            Err(GraphError::UnknownEdgeEndpoint) => w@.nodes.len() < u32::MAX && w@.edges.len()
                < u32::MAX && !edges_known(w@),
        },
{
    let ghost wv = w@;
    let ghost ks = node_ids(wv.nodes);
    if w.nodes.len() >= 4294967295 || w.edges.len() >= 4294967295 {
        return Err(GraphError::TooLarge);
    }
    let mut g = new_graph();
    let mut i: usize = 0;
    while i < w.nodes.len()
        invariant
            i <= w.nodes.len(),
            w.nodes.len() < u32::MAX,
            graph_node_count(g) == i,
            graph_edges(g) == Seq::<(int, int)>::empty(),
        decreases w.nodes.len() - i,
    {
        add_graph_node(&mut g, i);
        i = i + 1;
    }
    let mut e: usize = 0;
    while e < w.edges.len()
        invariant
            wv == w@,
            ks == node_ids(wv.nodes),
            e <= w.edges.len(),
            w.edges.len() < u32::MAX,
            w.nodes.len() < u32::MAX,
            graph_node_count(g) == w.nodes.len(),
            graph_edges(g) == index_edges(wv).subrange(0, e as int),
            forall|k: int| 0 <= k < e ==> first_index(ks, #[trigger] wv.edges[k].0) is Some && first_index(
                ks,
                wv.edges[k].1,
            ) is Some,
        decreases w.edges.len() - e,
    {
        let edge = &w.edges[e];
        assert(wv.edges[e as int] == (edge.from@, edge.to@));
        let a = position_of(&w.nodes, edge.from.as_str());
        let b = position_of(&w.nodes, edge.to.as_str());
        match (a, b) {
            (Some(a), Some(b)) => {
                proof {
                    lemma_first_index_bounds(ks, edge.from@);
                    lemma_first_index_bounds(ks, edge.to@);
                }
                add_graph_edge(&mut g, a, b);
                assert(index_edges(wv).subrange(0, e + 1) =~= index_edges(wv).subrange(0, e as int).push(
                    (a as int, b as int),
                ));
            },
            _ => {
                assert(!(first_index(ks, wv.edges[e as int].0) is Some && first_index(ks, wv.edges[e as int].1) is Some));
                assert(!edges_known(wv));
                assert(wv == w@);
                return Err(GraphError::UnknownEdgeEndpoint);
            },
        }
        e = e + 1;
    }
    assert(index_edges(wv).subrange(0, wv.edges.len() as int) =~= index_edges(wv));
    Ok(g)
}

pub proof fn lemma_first_index_bounds(ks: Seq<Seq<char>>, k: Seq<char>)
    ensures
        match first_index(ks, k) {
            Some(i) => 0 <= i < ks.len() && ks[i] == k && forall|j: int| 0 <= j < i ==> ks[j] != k,
            None => forall|i: int| 0 <= i < ks.len() ==> ks[i] != k,
        },
{
    if exists|i: int| 0 <= i < ks.len() && ks[i] == k {
        let w = choose|i: int| 0 <= i < ks.len() && ks[i] == k;
        lemma_first_exists(ks, k, w);
    }
}

proof fn lemma_first_exists(ks: Seq<Seq<char>>, k: Seq<char>, w: int)
    requires
        0 <= w < ks.len(),
        ks[w] == k,
    ensures
        exists|i: int| 0 <= i < ks.len() && ks[i] == k && forall|j: int| 0 <= j < i ==> ks[j] != k,
    decreases w,
{
    if exists|j: int| 0 <= j < w && ks[j] == k {
        let j = choose|j: int| 0 <= j < w && ks[j] == k;
        lemma_first_exists(ks, k, j);
    } else {
        assert(forall|j: int| 0 <= j < w ==> ks[j] != k);
    }
}

/// Whether the nodes' identifiers are pairwise distinct.
pub fn ids_distinct(nodes: &Vec<Node>) -> (r: bool)
    ensures
        r == ids_unique(nodes@.map_values(|n: Node| n@)),
{
    let ghost nv = nodes@.map_values(|n: Node| n@);
    let mut i: usize = 0;
    while i < nodes.len()
        invariant
            nv == nodes@.map_values(|n: Node| n@),
            i <= nodes.len(),
            forall|a: int, b: int| 0 <= a < b < nv.len() && a < i ==> nv[a].id != nv[b].id,
        decreases nodes.len() - i,
    {
        let mut j: usize = i + 1;
        while j < nodes.len()
            invariant
                nv == nodes@.map_values(|n: Node| n@),
                i < nodes.len(),
                i < j <= nodes.len(),
                forall|a: int, b: int| 0 <= a < b < nv.len() && a < i ==> nv[a].id != nv[b].id,
                forall|b: int| i < b < j ==> nv[i as int].id != nv[b].id,
            decreases nodes.len() - j,
        {
            if same_text(nodes[i].id.as_str(), nodes[j].id.as_str()) {
                assert(nv[i as int].id == nv[j as int].id);
                return false;
            }
            j = j + 1;
        }
        i = i + 1;
    }
    true
}

/// The `path` parameters of the `Webhook` nodes, in order.
pub fn webhook_paths(nodes: &Vec<Node>) -> (r: Vec<String>)
    ensures
        texts(r@) == webhook_paths_of(nodes@.map_values(|n: Node| n@)),
{
    let mut out: Vec<String> = Vec::new();
    let mut i: usize = 0;
    while i < nodes.len()
        invariant
            i <= nodes.len(),
            texts(out@) == webhook_paths_of(nodes@.subrange(0, i as int).map_values(|n: Node| n@)),
        decreases nodes.len() - i,
    {
        let ghost pre = nodes@.subrange(0, i as int).map_values(|n: Node| n@);
        let ghost post = nodes@.subrange(0, i + 1).map_values(|n: Node| n@);
        assert(post.drop_last() =~= pre);
        assert(post.last() == nodes@[i as int]@);
        let node = &nodes[i];
        if node.node_type == NodeType::Webhook {
            match node.params.text_field("path") {
                Some(p) => {
                    let ghost before = out@;
                    out.push(p.clone());
                    assert(texts(out@) =~= texts(before).push(p@));
                },
                None => {},
            }
        }
        i = i + 1;
    }
    assert(nodes@.subrange(0, nodes@.len() as int) =~= nodes@);
    out
}

/// The identifiers of the entry nodes, in order.
pub fn start_ids(nodes: &Vec<Node>) -> (r: Vec<String>)
    ensures
        texts(r@) == start_ids_of(nodes@.map_values(|n: Node| n@)),
{
    let mut out: Vec<String> = Vec::new();
    let mut i: usize = 0;
    while i < nodes.len()
        invariant
            i <= nodes.len(),
            texts(out@) == start_ids_of(nodes@.subrange(0, i as int).map_values(|n: Node| n@)),
        decreases nodes.len() - i,
    {
        let ghost pre = nodes@.subrange(0, i as int).map_values(|n: Node| n@);
        let ghost post = nodes@.subrange(0, i + 1).map_values(|n: Node| n@);
        assert(post.drop_last() =~= pre);
        assert(post.last() == nodes@[i as int]@);
        let node = &nodes[i];
        if node.node_type.is_entry() {
            let ghost before = out@;
            out.push(node.id.clone());
            assert(texts(out@) =~= texts(before).push(node.id@));
        }
        i = i + 1;
    }
    assert(nodes@.subrange(0, nodes@.len() as int) =~= nodes@);
    out
}

/// Compiles a workflow: validates its graph, lists its entry nodes and
/// collects its webhook paths.
pub fn compile_workflow(workflow: Workflow) -> (r: Result<CompiledWorkflow, CompileError>)
    ensures
        match r {
            Ok(c) => compile_failure(workflow@) is None && c.workflow == workflow && c@ == compiled_form(
                workflow@,
            ),
            Err(e) => compile_failure(workflow@) == Some(e),
        },
{
    let ghost wv = workflow@;
    if workflow.nodes.len() == 0 {
        return Err(CompileError::EmptyWorkflow);
    }
    if workflow.nodes.len() >= 4294967295 || workflow.edges.len() >= 4294967295 {
        return Err(CompileError::TooLarge);
    }
    if !ids_distinct(&workflow.nodes) {
        return Err(CompileError::DuplicateNodeId);
    }
    let g = match build_graph(&workflow) {
        Ok(g) => g,
        Err(_) => {
            return Err(CompileError::UnknownEdgeEndpoint);
        },
    };
    match topological_order(&g) {
        Some(order) => {
            assert(crate::graph::is_topo_order(as_ints(order@), graph_node_count(g), graph_edges(g)));
            assert(workflow_acyclic(wv));
        },
        None => {
            return Err(CompileError::Cycle);
        },
    }
    let starts = start_ids(&workflow.nodes);
    if starts.len() == 0 {
        return Err(CompileError::NoStartNode);
    }
    let paths = webhook_paths(&workflow.nodes);
    Ok(CompiledWorkflow { workflow, webhook_paths: paths, start_node_ids: starts })
}

} // verus!
