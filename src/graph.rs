//! The relation graph of one dimension: nodes (memories) and weighted,
//! directed edges between them.

use vstd::prelude::*;
use crate::outside::now_millis;
use crate::text::{chars_of, has_prefix, slice_text, starts_with, text_eq};

verus! {

/// Where a set of dimension graphs is stored.
#[derive(Debug, Clone)]
pub enum GraphScope {
    ShortTerm { assistant_id: String, topic_id: String },
    LongTerm { assistant_id: String },
    Global,
}

impl GraphScope {
    pub open spec fn dir_of(&self, data_dir: Seq<char>) -> Seq<char> {
        match self {
            GraphScope::ShortTerm { assistant_id, topic_id } => data_dir + "/assistants/"@
                + assistant_id@ + "/topics/"@ + topic_id@ + "/graphs"@,
            GraphScope::LongTerm { assistant_id } => data_dir + "/assistants/"@ + assistant_id@
                + "/long_term_graphs"@,
            GraphScope::Global => data_dir + "/global_graphs"@,
        }
    }

    pub open spec fn key_of(&self, dimension: Seq<char>) -> Seq<char> {
        match self {
            GraphScope::ShortTerm { assistant_id, topic_id } => "short:"@ + assistant_id@ + ":"@
                + topic_id@ + ":"@ + dimension,
            GraphScope::LongTerm { assistant_id } => "long:"@ + assistant_id@ + ":"@ + dimension,
            GraphScope::Global => "global:"@ + dimension,
        }
    }

    pub open spec fn prefix_of(&self) -> Seq<char> {
        match self {
            GraphScope::ShortTerm { assistant_id, topic_id } => "short:"@ + assistant_id@ + ":"@
                + topic_id@ + ":"@,
            GraphScope::LongTerm { assistant_id } => "long:"@ + assistant_id@ + ":"@,
            GraphScope::Global => "global:"@,
        }
    }

    /// The start that the cache keys of this scope's graphs share.
    pub fn key_prefix(&self) -> (r: String)
        ensures
            r@ == self.prefix_of(),
    {
        match self {
            GraphScope::ShortTerm { assistant_id, topic_id } => {
                let mut r = String::from_str("short:");
                r.append(assistant_id.as_str());
                r.append(":");
                r.append(topic_id.as_str());
                r.append(":");
                r
            },
            GraphScope::LongTerm { assistant_id } => {
                let mut r = String::from_str("long:");
                r.append(assistant_id.as_str());
                r.append(":");
                r
            },
            GraphScope::Global => String::from_str("global:"),
        }
    }

    /// Is `key` the cache key of a graph of this scope? (What flushing and
    /// deleting a whole scope select.)
    pub fn owns_key(&self, key: &str) -> (r: bool)
        ensures
            r == has_prefix(key@, self.prefix_of()),
    {
        let prefix = self.key_prefix();
        starts_with(key, prefix.as_str())
    }

    /// The directory under `data_dir` that holds this scope's graphs.
    pub fn storage_dir(&self, data_dir: &str) -> (r: String)
        ensures
            r@ == self.dir_of(data_dir@),
    {
        let mut r = String::from_str(data_dir);
        match self {
            GraphScope::ShortTerm { assistant_id, topic_id } => {
                r.append("/assistants/");
                r.append(assistant_id.as_str());
                r.append("/topics/");
                r.append(topic_id.as_str());
                r.append("/graphs");
            },
            GraphScope::LongTerm { assistant_id } => {
                r.append("/assistants/");
                r.append(assistant_id.as_str());
                r.append("/long_term_graphs");
            },
            GraphScope::Global => {
                r.append("/global_graphs");
            },
        }
        r
    }

    /// The key under which the graph of `dimension` in this scope is cached.
    pub fn cache_key(&self, dimension: &str) -> (r: String)
        ensures
            r@ == self.key_of(dimension@),
    {
        match self {
            GraphScope::ShortTerm { assistant_id, topic_id } => {
                let mut r = String::from_str("short:");
                r.append(assistant_id.as_str());
                r.append(":");
                r.append(topic_id.as_str());
                r.append(":");
                r.append(dimension);
                r
            },
            GraphScope::LongTerm { assistant_id } => {
                let mut r = String::from_str("long:");
                r.append(assistant_id.as_str());
                r.append(":");
                r.append(dimension);
                r
            },
            GraphScope::Global => {
                let mut r = String::from_str("global:");
                r.append(dimension);
                r
            },
        }
    }
}

/// Every graph's cache key belongs to its own scope.
pub proof fn lemma_cache_key_in_scope(scope: GraphScope, dimension: Seq<char>)
    ensures
        has_prefix(scope.key_of(dimension), scope.prefix_of()),
{
    let k = scope.key_of(dimension);
    let p = scope.prefix_of();
    assert(k.subrange(0, p.len() as int) =~= p);
}

/// The dimension that a graph file stands for: its name without `.json`.
pub open spec fn dimension_of_file_name(name: Seq<char>) -> Option<Seq<char>> {
    if name.len() > 5 && name.subrange(name.len() - 5, name.len() as int) == ".json"@ {
        Some(name.subrange(0, name.len() - 5))
    } else {
        None
    }
}

/// The dimension of a graph file, when `name` is one.
pub fn dimension_of_file(name: &str) -> (r: Option<String>)
    ensures
        r is None <==> dimension_of_file_name(name@) is None,
        r matches Some(d) ==> dimension_of_file_name(name@) == Some(d@),
{
    proof {
        reveal_strlit(".json");
    }
    let sv = chars_of(name);
    let ext = chars_of(".json");
    let n = sv.len();
    if n > 5 && crate::text::matches_at(&sv, n - 5, &ext) {
        Some(slice_text(name, 0, n - 5))
    } else {
        None
    }
}

/// Where the memory behind a node is kept.
#[derive(Debug, Clone)]
pub enum MemoryRef {
    ShortTerm { file_path: String },
    LongTerm { collection: String, point_id: String },
    External { uri: String },
}

/// What the dimensions may read of a node.
#[derive(Debug, Clone)]
pub struct NodeFeatures {
    /// Milliseconds since the Unix epoch.
    pub timestamp: Option<i64>,
    pub entities: Vec<String>,
    pub emotion: Option<String>,
    pub topics: Vec<String>,
}

#[derive(Debug, Clone)]
pub struct Node {
    pub id: String,
    pub memory_ref: MemoryRef,
    /// Milliseconds since the Unix epoch.
    pub created_at: i64,
    pub features: NodeFeatures,
}

/// A directed, weighted edge. The weight is in millionths, at most 1.0.
#[derive(Debug, Clone)]
pub struct Edge {
    pub source: String,
    pub target: String,
    pub weight: u32,
    pub reason: String,
    /// Milliseconds since the Unix epoch.
    pub created_at: i64,
    pub auto_generated: bool,
}

#[derive(Debug, Clone)]
pub struct GraphMetadata {
    pub created_at: i64,
    pub updated_at: i64,
    pub node_count: usize,
    pub edge_count: usize,
}

#[derive(Debug, Clone)]
pub enum DimensionError {
    MissingFeature(String),
    ComputeError(String),
    AiError(String),
}

#[derive(Debug, Clone)]
pub enum GraphError {
    NotFound { dimension: String },
    NodeNotFound { node_id: String },
    DuplicateNode { node_id: String },
    Io(String),
    Serialization(String),
    ProcessorNotRegistered { dimension: String },
    Dimension(DimensionError),
}

pub open spec fn ids_of(nodes: Seq<Node>) -> Seq<Seq<char>> {
    nodes.map_values(|n: Node| n.id@)
}

pub open spec fn has_id(nodes: Seq<Node>, id: Seq<char>) -> bool {
    exists|i: int| 0 <= i < nodes.len() && nodes[i].id@ == id
}

/// Both ends of every edge are nodes of the graph.
pub open spec fn edges_closed(nodes: Seq<Node>, edges: Seq<Edge>) -> bool {
    forall|k: int|
        0 <= k < edges.len() ==> has_id(nodes, #[trigger] edges[k].source@) && has_id(
            nodes,
            edges[k].target@,
        )
}

pub open spec fn ids_unique(nodes: Seq<Node>) -> bool {
    forall|i: int, j: int| 0 <= i < j < nodes.len() ==> nodes[i].id@ != nodes[j].id@
}

/// The edge does not touch node `id`.
pub open spec fn avoids(e: Edge, id: Seq<char>) -> bool {
    e.source@ != id && e.target@ != id
}

pub open spec fn avoiding(id: Seq<char>) -> spec_fn(Edge) -> bool {
    |e: Edge| avoids(e, id)
}

pub open spec fn is_link(e: Edge, source: Seq<char>, target: Seq<char>) -> bool {
    e.source@ == source && e.target@ == target
}

/// Per node (by index), the (other end, weight) of its outgoing and of its
/// incoming edges, in edge order.
#[derive(Debug, Clone)]
pub struct Adjacency {
    pub forward: Vec<Vec<(String, u32)>>,
    pub backward: Vec<Vec<(String, u32)>>,
}

pub open spec fn pair_views(v: Seq<(String, u32)>) -> Seq<(Seq<char>, u32)> {
    v.map_values(|p: (String, u32)| (p.0@, p.1))
}

pub open spec fn from_node(id: Seq<char>) -> spec_fn(Edge) -> bool {
    |e: Edge| e.source@ == id
}

pub open spec fn to_node(id: Seq<char>) -> spec_fn(Edge) -> bool {
    |e: Edge| e.target@ == id
}

/// The (target, weight) of the edges out of `id`, in edge order.
pub open spec fn out_pairs(edges: Seq<Edge>, id: Seq<char>) -> Seq<(Seq<char>, u32)> {
    edges.filter(from_node(id)).map_values(|e: Edge| (e.target@, e.weight))
}

/// The (source, weight) of the edges into `id`, in edge order.
pub open spec fn in_pairs(edges: Seq<Edge>, id: Seq<char>) -> Seq<(Seq<char>, u32)> {
    edges.filter(to_node(id)).map_values(|e: Edge| (e.source@, e.weight))
}

/// The cached adjacency, when there is one, says what the edge list says.
pub open spec fn adjacency_agrees(nodes: Seq<Node>, edges: Seq<Edge>, adj: Option<Adjacency>) -> bool {
    adj matches Some(a) ==> {
        &&& a.forward@.len() == nodes.len()
        &&& a.backward@.len() == nodes.len()
        &&& forall|i: int|
            0 <= i < nodes.len() ==> pair_views(#[trigger] a.forward@[i]@) == out_pairs(
                edges,
                nodes[i].id@,
            )
        &&& forall|i: int|
            0 <= i < nodes.len() ==> pair_views(#[trigger] a.backward@[i]@) == in_pairs(
                edges,
                nodes[i].id@,
            )
    }
}

/// One dimension's graph.
#[derive(Debug)]
pub struct DimensionGraph {
    pub dimension: String,
    pub version: String,
    pub metadata: GraphMetadata,
    pub nodes: Vec<Node>,
    pub edges: Vec<Edge>,
    pub storage_path: Option<String>,
    /// Built by `rebuild_caches`; dropped by every change of nodes or edges.
    pub adjacency: Option<Adjacency>,
}

/// The index of the node with id `id`.
pub fn position_of(nodes: &Vec<Node>, id: &str) -> (r: Option<usize>)
    ensures
        r matches Some(i) ==> i < nodes@.len() && nodes@[i as int].id@ == id@ && forall|k: int|
            0 <= k < i ==> nodes@[k].id@ != id@,
        r is None ==> !has_id(nodes@, id@),
{
    let mut i: usize = 0;
    while i < nodes.len()
        invariant
            i <= nodes@.len(),
            forall|k: int| 0 <= k < i ==> nodes@[k].id@ != id@,
        decreases nodes@.len() - i,
    {
        if text_eq(nodes[i].id.as_str(), id) {
            return Some(i);
        }
        i = i + 1;
    }
    None
}

impl DimensionGraph {
    /// The graph's standing invariant: node ids are unique, edges join
    /// existing nodes, and the metadata counts agree.
    pub open spec fn wf(&self) -> bool {
        &&& ids_unique(self.nodes@)
        &&& edges_closed(self.nodes@, self.edges@)
        &&& self.metadata.node_count == self.nodes@.len()
        &&& self.metadata.edge_count == self.edges@.len()
        &&& adjacency_agrees(self.nodes@, self.edges@, self.adjacency)
    }

    pub fn new(dimension: &str) -> (r: DimensionGraph)
        ensures
            r.wf(),
            r.dimension@ == dimension@,
            r.version@ == "1.0"@,
            r.nodes@.len() == 0,
            r.edges@.len() == 0,
            r.storage_path is None,
    {
        let now = now_millis();
        DimensionGraph {
            dimension: String::from_str(dimension),
            version: String::from_str("1.0"),
            metadata: GraphMetadata { created_at: now, updated_at: now, node_count: 0, edge_count: 0 },
            nodes: Vec::new(),
            edges: Vec::new(),
            storage_path: None,
            adjacency: None,
        }
    }

    pub fn set_storage_path(&mut self, path: String)
        ensures
            final(self).storage_path == Some(path),
            final(self).nodes == old(self).nodes,
            final(self).edges == old(self).edges,
            final(self).metadata == old(self).metadata,
            final(self).adjacency == old(self).adjacency,
    {
        self.storage_path = Some(path);
    }

    pub fn node_count(&self) -> (r: usize)
        ensures
            r == self.nodes@.len(),
    {
        self.nodes.len()
    }

    pub fn edge_count(&self) -> (r: usize)
        ensures
            r == self.edges@.len(),
    {
        self.edges.len()
    }

    pub fn has_node(&self, id: &str) -> (r: bool)
        ensures
            r == has_id(self.nodes@, id@),
    {
        position_of(&self.nodes, id).is_some()
    }

    pub fn get_node(&self, id: &str) -> (r: Option<&Node>)
        ensures
            r is None <==> !has_id(self.nodes@, id@),
            r matches Some(n) ==> n.id@ == id@ && self.nodes@.contains(*n),
    {
        match position_of(&self.nodes, id) {
            Some(i) => Some(&self.nodes[i]),
            None => None,
        }
    }

    /// Add `node`; a node whose id is already present is refused.
    pub fn add_node(&mut self, node: Node) -> (r: Result<(), GraphError>)
        requires
            old(self).wf(),
        ensures
            final(self).wf(),
            r is Ok <==> !has_id(old(self).nodes@, node.id@),
            r is Ok ==> final(self).nodes@ == old(self).nodes@.push(node),
            r is Err ==> final(self).nodes@ == old(self).nodes@,
            final(self).edges@ == old(self).edges@,
    {
        if self.has_node(node.id.as_str()) {
            return Err(GraphError::DuplicateNode { node_id: node.id });
        }
        let ghost added = node;
        self.adjacency = None;
        self.nodes.push(node);
        proof {
            assert forall|k: int| 0 <= k < self.edges@.len() implies has_id(
                self.nodes@,
                #[trigger] self.edges@[k].source@,
            ) && has_id(self.nodes@, self.edges@[k].target@) by {
                let a = choose|i: int|
                    0 <= i < old(self).nodes@.len() && old(self).nodes@[i].id@
                        == self.edges@[k].source@;
                let b = choose|i: int|
                    0 <= i < old(self).nodes@.len() && old(self).nodes@[i].id@
                        == self.edges@[k].target@;
                assert(self.nodes@[a].id@ == self.edges@[k].source@);
                assert(self.nodes@[b].id@ == self.edges@[k].target@);
            }
        }
        self.metadata.node_count = self.nodes.len();
        Ok(())
    }

    /// Remove node `id` with every edge that touches it.
    pub fn remove_node(&mut self, id: &str) -> (r: Option<Node>)
        requires
            old(self).wf(),
        ensures
            final(self).wf(),
            r is None <==> !has_id(old(self).nodes@, id@),
            r is None ==> final(self).nodes@ == old(self).nodes@ && final(self).edges@ == old(
                self,
            ).edges@,
            r matches Some(n) ==> n.id@ == id@ && !has_id(final(self).nodes@, id@) && exists|
                i: int,
            |
                0 <= i < old(self).nodes@.len() && old(self).nodes@[i] == n && final(self).nodes@
                    == old(self).nodes@.remove(i),
            r is Some ==> final(self).edges@ == old(self).edges@.filter(avoiding(id@)),
            forall|k: int|
                0 <= k < final(self).edges@.len() ==> avoids(#[trigger] final(self).edges@[k], id@),
    {
        let idx = match position_of(&self.nodes, id) {
            Some(i) => i,
            None => {
                return None;
            },
        };
        let ghost old_nodes = self.nodes@;
        self.adjacency = None;
        let node = self.nodes.remove(idx);
        let mut kept: Vec<Edge> = Vec::new();
        let mut edges: Vec<Edge> = Vec::new();
        std::mem::swap(&mut edges, &mut self.edges);
        let ghost all = edges@;
        let mut k: usize = 0;
        while k < edges.len()
            invariant
                all == old(self).edges@,
                edges@ == all,
                k <= all.len(),
                kept@ == all.subrange(0, k as int).filter(avoiding(id@)),
                forall|j: int| 0 <= j < kept@.len() ==> avoids(#[trigger] kept@[j], id@),
                forall|j: int| 0 <= j < kept@.len() ==> all.contains(#[trigger] kept@[j]),
            decreases all.len() - k,
        {
            let e = &edges[k];
            proof {
                assert(all.subrange(0, k + 1) =~= all.subrange(0, k as int).push(all[k as int]));
                all.subrange(0, k as int).lemma_filter_push(all[k as int], avoiding(id@));
            }
            if !text_eq(e.source.as_str(), id) && !text_eq(e.target.as_str(), id) {
                kept.push(e.clone_edge());
                proof {
                    assert(all.contains(all[k as int]));
                }
            }
            k = k + 1;
        }
        assert(all.subrange(0, all.len() as int) =~= all);
        self.edges = kept;
        proof {
            assert(self.nodes@ == old_nodes.remove(idx as int));
            assert forall|a: int, b: int|
                0 <= a < b < self.nodes@.len() implies self.nodes@[a].id@ != self.nodes@[b].id@ by {
                let a0 = if a < idx { a } else { a + 1 };
                let b0 = if b < idx { b } else { b + 1 };
                assert(self.nodes@[a] == old_nodes[a0]);
                assert(self.nodes@[b] == old_nodes[b0]);
            }
            assert(!has_id(self.nodes@, id@)) by {
                if has_id(self.nodes@, id@) {
                    let a = choose|a: int| 0 <= a < self.nodes@.len() && self.nodes@[a].id@ == id@;
                    let a0 = if a < idx { a } else { a + 1 };
                    assert(self.nodes@[a] == old_nodes[a0]);
                }
            }
            assert forall|j: int| 0 <= j < self.edges@.len() implies has_id(
                self.nodes@,
                #[trigger] self.edges@[j].source@,
            ) && has_id(self.nodes@, self.edges@[j].target@) by {
                let e = self.edges@[j];
                assert(all.contains(e));
                let m = choose|m: int| 0 <= m < all.len() && all[m] == e;
                assert(has_id(old_nodes, e.source@));
                assert(has_id(old_nodes, e.target@));
                let s = choose|s: int| 0 <= s < old_nodes.len() && old_nodes[s].id@ == e.source@;
                let t = choose|t: int| 0 <= t < old_nodes.len() && old_nodes[t].id@ == e.target@;
                assert(s != idx && t != idx);
                let s1 = if s < idx { s } else { s - 1 };
                let t1 = if t < idx { t } else { t - 1 };
                assert(self.nodes@[s1] == old_nodes[s]);
                assert(self.nodes@[t1] == old_nodes[t]);
            }
        }
        self.metadata.node_count = self.nodes.len();
        self.metadata.edge_count = self.edges.len();
        Some(node)
    }

    /// Add `edge`; an edge with an end that is not a node is refused.
    pub fn add_edge(&mut self, edge: Edge) -> (r: Result<(), GraphError>)
        requires
            old(self).wf(),
        ensures
            final(self).wf(),
            r is Ok <==> has_id(old(self).nodes@, edge.source@) && has_id(
                old(self).nodes@,
                edge.target@,
            ),
            r is Ok ==> final(self).edges@ == old(self).edges@.push(edge),
            r is Err ==> final(self).edges@ == old(self).edges@,
            final(self).nodes@ == old(self).nodes@,
    {
        if !self.has_node(edge.source.as_str()) {
            return Err(GraphError::NodeNotFound { node_id: edge.source });
        }
        if !self.has_node(edge.target.as_str()) {
            return Err(GraphError::NodeNotFound { node_id: edge.target });
        }
        self.adjacency = None;
        self.edges.push(edge);
        self.metadata.edge_count = self.edges.len();
        Ok(())
    }

    /// Add the edges in order, stopping at the first one that is refused.
    pub fn add_edges(&mut self, edges: Vec<Edge>) -> (r: Result<(), GraphError>)
        requires
            old(self).wf(),
        ensures
            final(self).wf(),
            final(self).nodes@ == old(self).nodes@,
            r is Ok <==> forall|k: int|
                0 <= k < edges@.len() ==> has_id(old(self).nodes@, #[trigger] edges@[k].source@)
                    && has_id(old(self).nodes@, edges@[k].target@),
            r is Ok ==> final(self).edges@ == old(self).edges@ + edges@,
    {
        let ghost nodes0 = old(self).nodes@;
        let mut i: usize = 0;
        while i < edges.len()
            invariant
                i <= edges@.len(),
                nodes0 == old(self).nodes@,
                self.wf(),
                self.nodes@ == nodes0,
                self.edges@ == old(self).edges@ + edges@.subrange(0, i as int),
                forall|k: int|
                    0 <= k < i ==> has_id(nodes0, #[trigger] edges@[k].source@) && has_id(
                        nodes0,
                        edges@[k].target@,
                    ),
            decreases edges@.len() - i,
        {
            let e = edges[i].clone_edge();
            let r = self.add_edge(e);
            match r {
                Err(_) => {
                    return r;
                },
                Ok(()) => {},
            }
            assert(e == edges@[i as int]);
            assert(edges@.subrange(0, i + 1) =~= edges@.subrange(0, i as int).push(edges@[i as int]));
            assert(has_id(old(self).nodes@, edges@[i as int].source@) && has_id(
                old(self).nodes@,
                edges@[i as int].target@,
            ));
            assert forall|k: int|
                0 <= k < i + 1 implies has_id(old(self).nodes@, #[trigger] edges@[k].source@)
                && has_id(old(self).nodes@, edges@[k].target@) by {
                if k == i {
                    assert(edges@[k] == edges@[i as int]);
                }
            }
            i = i + 1;
        }
        assert(edges@.subrange(0, edges@.len() as int) =~= edges@);
        Ok(())
    }
}

impl Edge {
    pub fn clone_edge(&self) -> (r: Edge)
        ensures
            r == *self,
    {
        Edge {
            source: self.source.clone(),
            target: self.target.clone(),
            weight: self.weight,
            reason: self.reason.clone(),
            created_at: self.created_at,
            auto_generated: self.auto_generated,
        }
    }
}

} // verus!
