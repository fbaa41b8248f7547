//! Read-only views of a dimension graph: the edges at a node, its
//! neighbours, and walks along the temporal chain.

use vstd::prelude::*;
use crate::graph::{
    Adjacency, DimensionGraph, Edge, Node, from_node, in_pairs, out_pairs, pair_views, position_of,
    to_node,
};
use crate::text::text_eq;

verus! {


/// The first index of an edge into `id`.
pub open spec fn first_into(edges: Seq<Edge>, id: Seq<char>) -> Option<int>
    decreases edges.len(),
{
    if edges.len() == 0 {
        None
    } else {
        match first_into(edges.drop_last(), id) {
            Some(i) => Some(i),
            None => if edges.last().target@ == id {
                Some(edges.len() - 1)
            } else {
                None
            },
        }
    }
}

/// The first index of an edge out of `id`.
pub open spec fn first_out(edges: Seq<Edge>, id: Seq<char>) -> Option<int>
    decreases edges.len(),
{
    if edges.len() == 0 {
        None
    } else {
        match first_out(edges.drop_last(), id) {
            Some(i) => Some(i),
            None => if edges.last().source@ == id {
                Some(edges.len() - 1)
            } else {
                None
            },
        }
    }
}

/// The first index of a node with id `id`.
pub open spec fn node_index(nodes: Seq<Node>, id: Seq<char>) -> Option<int>
    decreases nodes.len(),
{
    if nodes.len() == 0 {
        None
    } else {
        match node_index(nodes.drop_last(), id) {
            Some(i) => Some(i),
            None => if nodes.last().id@ == id {
                Some(nodes.len() - 1)
            } else {
                None
            },
        }
    }
}

proof fn lemma_node_index(nodes: Seq<Node>, id: Seq<char>, i: int)
    requires
        0 <= i < nodes.len(),
        nodes[i].id@ == id,
        forall|k: int| 0 <= k < i ==> nodes[k].id@ != id,
    ensures
        node_index(nodes, id) == Some(i),
    decreases nodes.len(),
{
    if i < nodes.len() - 1 {
        lemma_node_index(nodes.drop_last(), id, i);
    } else {
        lemma_node_index_none(nodes.drop_last(), id);
    }
}

proof fn lemma_node_index_absent(nodes: Seq<Node>, id: Seq<char>)
    requires
        !crate::graph::has_id(nodes, id),
    ensures
        node_index(nodes, id) is None,
{
    lemma_node_index_none(nodes, id);
}

proof fn lemma_node_index_none(nodes: Seq<Node>, id: Seq<char>)
    requires
        forall|k: int| 0 <= k < nodes.len() ==> nodes[k].id@ != id,
    ensures
        node_index(nodes, id) is None,
    decreases nodes.len(),
{
    if nodes.len() > 0 {
        lemma_node_index_none(nodes.drop_last(), id);
    }
}

/// Up to `n` nodes reached from `id` by following, each time, the first
/// edge into the current node back to its source.
pub open spec fn walk_back(nodes: Seq<Node>, edges: Seq<Edge>, id: Seq<char>, n: nat) -> Seq<Node>
    decreases n,
{
    if n == 0 {
        Seq::empty()
    } else {
        match first_into(edges, id) {
            Some(k) => match node_index(nodes, edges[k].source@) {
                Some(j) => seq![nodes[j]] + walk_back(nodes, edges, edges[k].source@, (n - 1) as nat),
                None => Seq::empty(),
            },
            None => Seq::empty(),
        }
    }
}

/// Up to `n` nodes reached from `id` by following, each time, the first
/// edge out of the current node to its target.
pub open spec fn walk_forward(nodes: Seq<Node>, edges: Seq<Edge>, id: Seq<char>, n: nat) -> Seq<Node>
    decreases n,
{
    if n == 0 {
        Seq::empty()
    } else {
        match first_out(edges, id) {
            Some(k) => match node_index(nodes, edges[k].target@) {
                Some(j) => seq![nodes[j]] + walk_forward(nodes, edges, edges[k].target@, (n - 1) as nat),
                None => Seq::empty(),
            },
            None => Seq::empty(),
        }
    }
}

proof fn lemma_first_prefix(edges: Seq<Edge>, n: int, id: Seq<char>, forward: bool)
    requires
        0 <= n <= edges.len(),
        forward ==> first_out(edges.subrange(0, n), id) is Some,
        !forward ==> first_into(edges.subrange(0, n), id) is Some,
    ensures
        forward ==> first_out(edges, id) == first_out(edges.subrange(0, n), id),
        !forward ==> first_into(edges, id) == first_into(edges.subrange(0, n), id),
    decreases edges.len(),
{
    if n == edges.len() {
        assert(edges.subrange(0, n) =~= edges);
    } else {
        assert(edges.drop_last().subrange(0, n) =~= edges.subrange(0, n));
        lemma_first_prefix(edges.drop_last(), n, id, forward);
    }
}

proof fn lemma_first_bound(edges: Seq<Edge>, id: Seq<char>)
    ensures
        first_out(edges, id) matches Some(i) ==> 0 <= i < edges.len() && edges[i].source@ == id,
        first_into(edges, id) matches Some(i) ==> 0 <= i < edges.len() && edges[i].target@ == id,
    decreases edges.len(),
{
    if edges.len() > 0 {
        lemma_first_bound(edges.drop_last(), id);
    }
}

/// The index of the first edge out of (`forward`) or into `id`.
fn find_edge(edges: &Vec<Edge>, id: &str, forward: bool) -> (r: Option<usize>)
    ensures
        forward ==> (r matches Some(i) ==> first_out(edges@, id@) == Some(i as int)) && (r is None
            ==> first_out(edges@, id@) is None),
        !forward ==> (r matches Some(i) ==> first_into(edges@, id@) == Some(i as int)) && (r is None
            ==> first_into(edges@, id@) is None),
        r matches Some(i) ==> i < edges@.len(),
{
    let mut i: usize = 0;
    while i < edges.len()
        invariant
            i <= edges@.len(),
            forward ==> first_out(edges@.subrange(0, i as int), id@) is None,
            !forward ==> first_into(edges@.subrange(0, i as int), id@) is None,
        decreases edges@.len() - i,
    {
        assert(edges@.subrange(0, i + 1).drop_last() =~= edges@.subrange(0, i as int));
        let end = if forward {
            &edges[i].source
        } else {
            &edges[i].target
        };
        if text_eq(end.as_str(), id) {
            proof {
                lemma_first_prefix(edges@, i + 1, id@, forward);
            }
            return Some(i);
        }
        i = i + 1;
    }
    assert(edges@.subrange(0, edges@.len() as int) =~= edges@);
    None
}

/// The (other end, weight) of the edges out of (`forward`) or into `id`.
fn pairs_of(edges: &Vec<Edge>, id: &str, forward: bool) -> (r: Vec<(String, u32)>)
    ensures
        forward ==> pair_views(r@) == out_pairs(edges@, id@),
        !forward ==> pair_views(r@) == in_pairs(edges@, id@),
{
    let mut out: Vec<(String, u32)> = Vec::new();
    let mut i: usize = 0;
    while i < edges.len()
        invariant
            i <= edges@.len(),
            forward ==> pair_views(out@) == out_pairs(edges@.subrange(0, i as int), id@),
            !forward ==> pair_views(out@) == in_pairs(edges@.subrange(0, i as int), id@),
        decreases edges@.len() - i,
    {
        proof {
            assert(edges@.subrange(0, i + 1) =~= edges@.subrange(0, i as int).push(edges@[i as int]));
            edges@.subrange(0, i as int).lemma_filter_push(edges@[i as int], from_node(id@));
            edges@.subrange(0, i as int).lemma_filter_push(edges@[i as int], to_node(id@));
        }
        let e = &edges[i];
        let ghost before = out@;
        if forward {
            if text_eq(e.source.as_str(), id) {
                out.push((e.target.clone(), e.weight));
            }
        } else {
            if text_eq(e.target.as_str(), id) {
                out.push((e.source.clone(), e.weight));
            }
        }
        proof {
            if out@.len() > before.len() {
                assert(pair_views(out@) =~= pair_views(before).push(pair_views(out@).last()));
            }
        }
        i = i + 1;
    }
    assert(edges@.subrange(0, edges@.len() as int) =~= edges@);
    out
}

/// Borrowed copies of cached pairs.
fn borrow_pairs(v: &Vec<(String, u32)>) -> (r: Vec<(&str, u32)>)
    ensures
        r@.map_values(|p: (&str, u32)| (p.0@, p.1)) == pair_views(v@),
{
    let mut out: Vec<(&str, u32)> = Vec::new();
    let mut i: usize = 0;
    while i < v.len()
        invariant
            i <= v@.len(),
            out@.len() == i,
            forall|k: int| 0 <= k < i ==> (#[trigger] out@[k]).0@ == v@[k].0@ && out@[k].1 == v@[k].1,
        decreases v@.len() - i,
    {
        out.push((v[i].0.as_str(), v[i].1));
        i = i + 1;
    }
    assert(out@.map_values(|p: (&str, u32)| (p.0@, p.1)) =~= pair_views(v@));
    out
}

impl DimensionGraph {
    /// Build the adjacency caches from the edge list.
    pub fn rebuild_caches(&mut self)
        requires
            old(self).wf(),
        ensures
            final(self).wf(),
            final(self).adjacency is Some,
            final(self).nodes == old(self).nodes,
            final(self).edges == old(self).edges,
            final(self).metadata == old(self).metadata,
            final(self).dimension == old(self).dimension,
            final(self).storage_path == old(self).storage_path,
    {
        let mut forward: Vec<Vec<(String, u32)>> = Vec::new();
        let mut backward: Vec<Vec<(String, u32)>> = Vec::new();
        let mut i: usize = 0;
        while i < self.nodes.len()
            invariant
                i <= self.nodes@.len(),
                forward@.len() == i,
                backward@.len() == i,
                forall|k: int|
                    0 <= k < i ==> pair_views(#[trigger] forward@[k]@) == out_pairs(
                        self.edges@,
                        self.nodes@[k].id@,
                    ),
                forall|k: int|
                    0 <= k < i ==> pair_views(#[trigger] backward@[k]@) == in_pairs(
                        self.edges@,
                        self.nodes@[k].id@,
                    ),
            decreases self.nodes@.len() - i,
        {
            let id = self.nodes[i].id.as_str();
            forward.push(pairs_of(&self.edges, id, true));
            backward.push(pairs_of(&self.edges, id, false));
            i = i + 1;
        }
        self.adjacency = Some(Adjacency { forward, backward });
    }

    /// The edges out of `source`, in order.
    pub fn edges_from(&self, source: &str) -> (r: Vec<&Edge>)
        ensures
            r@.map_values(|e: &Edge| *e) == self.edges@.filter(from_node(source@)),
    {
        let mut out: Vec<&Edge> = Vec::new();
        let mut i: usize = 0;
        while i < self.edges.len()
            invariant
                i <= self.edges@.len(),
                out@.map_values(|e: &Edge| *e) == self.edges@.subrange(0, i as int).filter(
                    from_node(source@),
                ),
            decreases self.edges@.len() - i,
        {
            proof {
                assert(self.edges@.subrange(0, i + 1) =~= self.edges@.subrange(0, i as int).push(
                    self.edges@[i as int],
                ));
                self.edges@.subrange(0, i as int).lemma_filter_push(
                    self.edges@[i as int],
                    from_node(source@),
                );
            }
            if text_eq(self.edges[i].source.as_str(), source) {
                let ghost before = out@.map_values(|e: &Edge| *e);
                out.push(&self.edges[i]);
                assert(out@.map_values(|e: &Edge| *e) =~= before.push(self.edges@[i as int]));
            }
            i = i + 1;
        }
        assert(self.edges@.subrange(0, self.edges@.len() as int) =~= self.edges@);
        out
    }

    /// The edges into `target`, in order.
    pub fn edges_to(&self, target: &str) -> (r: Vec<&Edge>)
        ensures
            r@.map_values(|e: &Edge| *e) == self.edges@.filter(to_node(target@)),
    {
        let mut out: Vec<&Edge> = Vec::new();
        let mut i: usize = 0;
        while i < self.edges.len()
            invariant
                i <= self.edges@.len(),
                out@.map_values(|e: &Edge| *e) == self.edges@.subrange(0, i as int).filter(
                    to_node(target@),
                ),
            decreases self.edges@.len() - i,
        {
            proof {
                assert(self.edges@.subrange(0, i + 1) =~= self.edges@.subrange(0, i as int).push(
                    self.edges@[i as int],
                ));
                self.edges@.subrange(0, i as int).lemma_filter_push(
                    self.edges@[i as int],
                    to_node(target@),
                );
            }
            if text_eq(self.edges[i].target.as_str(), target) {
                let ghost before = out@.map_values(|e: &Edge| *e);
                out.push(&self.edges[i]);
                assert(out@.map_values(|e: &Edge| *e) =~= before.push(self.edges@[i as int]));
            }
            i = i + 1;
        }
        assert(self.edges@.subrange(0, self.edges@.len() as int) =~= self.edges@);
        out
    }

    /// The first edge from `source` to `target`.
    pub fn edge_between(&self, source: &str, target: &str) -> (r: Option<&Edge>)
        ensures
            r matches Some(e) ==> e.source@ == source@ && e.target@ == target@
                && self.edges@.contains(*e),
            r is None ==> forall|k: int|
                0 <= k < self.edges@.len() ==> !(self.edges@[k].source@ == source@
                    && self.edges@[k].target@ == target@),
    {
        let mut i: usize = 0;
        while i < self.edges.len()
            invariant
                i <= self.edges@.len(),
                forall|k: int|
                    0 <= k < i ==> !(self.edges@[k].source@ == source@ && self.edges@[k].target@
                        == target@),
            decreases self.edges@.len() - i,
        {
            if text_eq(self.edges[i].source.as_str(), source) && text_eq(
                self.edges[i].target.as_str(),
                target,
            ) {
                assert(self.edges@.contains(self.edges@[i as int]));
                return Some(&self.edges[i]);
            }
            i = i + 1;
        }
        None
    }

    /// The targets and weights of the edges out of `id`, in order.
    pub fn forward_neighbors(&self, id: &str) -> (r: Vec<(&str, u32)>)
        requires
            self.wf(),
        ensures
            r@.map_values(|p: (&str, u32)| (p.0@, p.1)) == out_pairs(self.edges@, id@),
    {
        match &self.adjacency {
            Some(a) => match position_of(&self.nodes, id) {
                Some(i) => {
                    return borrow_pairs(&a.forward[i]);
                },
                None => {},
            },
            None => {},
        }
        let edges = self.edges_from(id);
        let ghost picked = edges@.map_values(|e: &Edge| *e);
        let mut out: Vec<(&str, u32)> = Vec::new();
        let mut i: usize = 0;
        while i < edges.len()
            invariant
                i <= edges@.len(),
                picked == edges@.map_values(|e: &Edge| *e),
                out@.len() == i,
                forall|k: int|
                    0 <= k < i ==> (#[trigger] out@[k]).0@ == edges@[k].target@ && out@[k].1
                        == edges@[k].weight,
            decreases edges@.len() - i,
        {
            out.push((edges[i].target.as_str(), edges[i].weight));
            i = i + 1;
        }
        assert(out@.map_values(|p: (&str, u32)| (p.0@, p.1)) =~= picked.map_values(
            |e: Edge| (e.target@, e.weight),
        ));
        out
    }

    /// The sources and weights of the edges into `id`, in order.
    pub fn backward_neighbors(&self, id: &str) -> (r: Vec<(&str, u32)>)
        requires
            self.wf(),
        ensures
            r@.map_values(|p: (&str, u32)| (p.0@, p.1)) == in_pairs(self.edges@, id@),
    {
        match &self.adjacency {
            Some(a) => match position_of(&self.nodes, id) {
                Some(i) => {
                    return borrow_pairs(&a.backward[i]);
                },
                None => {},
            },
            None => {},
        }
        let edges = self.edges_to(id);
        let ghost picked = edges@.map_values(|e: &Edge| *e);
        let mut out: Vec<(&str, u32)> = Vec::new();
        let mut i: usize = 0;
        while i < edges.len()
            invariant
                i <= edges@.len(),
                picked == edges@.map_values(|e: &Edge| *e),
                out@.len() == i,
                forall|k: int|
                    0 <= k < i ==> (#[trigger] out@[k]).0@ == edges@[k].source@ && out@[k].1
                        == edges@[k].weight,
            decreases edges@.len() - i,
        {
            out.push((edges[i].source.as_str(), edges[i].weight));
            i = i + 1;
        }
        assert(out@.map_values(|p: (&str, u32)| (p.0@, p.1)) =~= picked.map_values(
            |e: Edge| (e.source@, e.weight),
        ));
        out
    }

    /// Up to `limit` nodes before `id` along the temporal chain, nearest first.
    pub fn temporal_before(&self, id: &str, limit: usize) -> (r: Vec<&Node>)
        ensures
            r@.map_values(|n: &Node| *n) == walk_back(self.nodes@, self.edges@, id@, limit as nat),
    {
        self.walk(id, limit, false)
    }

    /// Up to `limit` nodes after `id` along the temporal chain, nearest first.
    pub fn temporal_after(&self, id: &str, limit: usize) -> (r: Vec<&Node>)
        ensures
            r@.map_values(|n: &Node| *n) == walk_forward(self.nodes@, self.edges@, id@, limit as nat),
    {
        self.walk(id, limit, true)
    }

    fn walk(&self, id: &str, limit: usize, forward: bool) -> (r: Vec<&Node>)
        ensures
            forward ==> r@.map_values(|n: &Node| *n) == walk_forward(
                self.nodes@,
                self.edges@,
                id@,
                limit as nat,
            ),
            !forward ==> r@.map_values(|n: &Node| *n) == walk_back(
                self.nodes@,
                self.edges@,
                id@,
                limit as nat,
            ),
    {
        let mut out: Vec<&Node> = Vec::new();
        let mut current: String = String::from_str(id);
        loop
            invariant
                out@.len() <= limit,
                forward ==> out@.map_values(|n: &Node| *n) + walk_forward(
                    self.nodes@,
                    self.edges@,
                    current@,
                    (limit - out@.len()) as nat,
                ) == walk_forward(self.nodes@, self.edges@, id@, limit as nat),
                !forward ==> out@.map_values(|n: &Node| *n) + walk_back(
                    self.nodes@,
                    self.edges@,
                    current@,
                    (limit - out@.len()) as nat,
                ) == walk_back(self.nodes@, self.edges@, id@, limit as nat),
            decreases limit - out@.len(),
        {
            let ghost left = (limit - out@.len()) as nat;
            if out.len() >= limit {
                assert(out@.map_values(|n: &Node| *n) =~= out@.map_values(|n: &Node| *n) + Seq::<
                    Node,
                >::empty());
                return out;
            }
            let k = match find_edge(&self.edges, current.as_str(), forward) {
                Some(k) => k,
                None => {
                    assert(out@.map_values(|n: &Node| *n) =~= out@.map_values(|n: &Node| *n) + Seq::<
                        Node,
                    >::empty());
                    return out;
                },
            };
            proof {
                lemma_first_bound(self.edges@, current@);
            }
            let next = if forward {
                &self.edges[k].target
            } else {
                &self.edges[k].source
            };
            let j = match position_of(&self.nodes, next.as_str()) {
                Some(j) => j,
                None => {
                    proof {
                        lemma_node_index_absent(self.nodes@, next@);
                    }
                    assert(out@.map_values(|n: &Node| *n) =~= out@.map_values(|n: &Node| *n) + Seq::<
                        Node,
                    >::empty());
                    return out;
                },
            };
            proof {
                lemma_node_index(self.nodes@, next@, j as int);
            }
            let ghost before = out@.map_values(|n: &Node| *n);
            out.push(&self.nodes[j]);
            proof {
                assert(out@.map_values(|n: &Node| *n) =~= before.push(self.nodes@[j as int]));
            }
            current = next.clone();
            proof {
                let w = if forward {
                    walk_forward(self.nodes@, self.edges@, current@, (left - 1) as nat)
                } else {
                    walk_back(self.nodes@, self.edges@, current@, (left - 1) as nat)
                };
                assert(out@.map_values(|n: &Node| *n) + w =~= before + (seq![self.nodes@[j as int]]
                    + w));
            }
        }
    }
}

} // verus!
