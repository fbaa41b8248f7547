//! The temporal dimension: nodes form one chain in timestamp order, each
//! linked to its nearest older and nearest newer neighbour.

use vstd::prelude::*;
use crate::graph::{
    DimensionError, DimensionGraph, Edge, GraphError, Node, has_id, is_link,
};
use crate::outside::now_millis;
use crate::text::text_eq;

verus! {

/// The name under which the temporal dimension is registered.
pub open spec fn temporal_dimension() -> Seq<char> {
    "temporal"@
}

/// The node carries a timestamp earlier than `t`.
pub open spec fn is_before(n: Node, t: i64) -> bool {
    n.features.timestamp is Some && n.features.timestamp->0 < t
}

/// The node carries a timestamp later than `t`.
pub open spec fn is_after(n: Node, t: i64) -> bool {
    n.features.timestamp is Some && n.features.timestamp->0 > t
}

pub open spec fn ts(n: Node) -> i64 {
    n.features.timestamp->0
}

/// Node `i` is the latest node strictly before `t` (the first such in order
/// among equal timestamps).
pub open spec fn is_predecessor(nodes: Seq<Node>, t: i64, i: int) -> bool {
    &&& 0 <= i < nodes.len()
    &&& is_before(nodes[i], t)
    &&& forall|j: int|
        0 <= j < nodes.len() && is_before(#[trigger] nodes[j], t) ==> ts(nodes[j]) <= ts(nodes[i])
            && (ts(nodes[j]) == ts(nodes[i]) ==> i <= j)
}

/// Node `i` is the earliest node strictly after `t` (the first such in order
/// among equal timestamps).
pub open spec fn is_successor(nodes: Seq<Node>, t: i64, i: int) -> bool {
    &&& 0 <= i < nodes.len()
    &&& is_after(nodes[i], t)
    &&& forall|j: int|
        0 <= j < nodes.len() && is_after(#[trigger] nodes[j], t) ==> ts(nodes[j]) >= ts(nodes[i])
            && (ts(nodes[j]) == ts(nodes[i]) ==> i <= j)
}

pub open spec fn has_before(nodes: Seq<Node>, t: i64) -> bool {
    exists|j: int| 0 <= j < nodes.len() && is_before(#[trigger] nodes[j], t)
}

pub open spec fn has_after(nodes: Seq<Node>, t: i64) -> bool {
    exists|j: int| 0 <= j < nodes.len() && is_after(#[trigger] nodes[j], t)
}

/// The weight and reason of an edge that insertion will create.
#[derive(Debug, Clone)]
pub struct TemporalLink {
    /// In millionths.
    pub weight: u32,
    pub reason: String,
}

pub open spec fn link_edge(source: Seq<char>, target: Seq<char>, link: TemporalLink, e: Edge) -> bool {
    &&& e.source@ == source
    &&& e.target@ == target
    &&& e.weight == link.weight
    &&& e.reason@ == link.reason@
    &&& e.auto_generated
}

pub open spec fn not_link(source: Seq<char>, target: Seq<char>) -> spec_fn(Edge) -> bool {
    |e: Edge| !is_link(e, source, target)
}

impl DimensionGraph {
    /// The indices of the nearest older and nearest newer node around `t`.
    /// Nodes without a timestamp, and nodes at exactly `t`, are passed over.
    pub fn temporal_neighbors(&self, t: i64) -> (r: (Option<usize>, Option<usize>))
        ensures
            r.0 matches Some(i) ==> is_predecessor(self.nodes@, t, i as int),
            r.0 is None ==> !has_before(self.nodes@, t),
            r.1 matches Some(i) ==> is_successor(self.nodes@, t, i as int),
            r.1 is None ==> !has_after(self.nodes@, t),
    {
        let mut pred: Option<usize> = None;
        let mut succ: Option<usize> = None;
        let mut pt: i64 = 0;
        let mut st: i64 = 0;
        let mut i: usize = 0;
        while i < self.nodes.len()
            invariant
                i <= self.nodes@.len(),
                pred matches Some(p) ==> p < i && self.nodes@[p as int].features.timestamp == Some(pt)
                    && pt < t,
                succ matches Some(s) ==> s < i && self.nodes@[s as int].features.timestamp == Some(st)
                    && st > t,
                forall|j: int|
                    0 <= j < i && is_before(#[trigger] self.nodes@[j], t) ==> pred is Some && ts(
                        self.nodes@[j],
                    ) <= pt && (ts(self.nodes@[j]) == pt ==> pred->0 <= j),
                forall|j: int|
                    0 <= j < i && is_after(#[trigger] self.nodes@[j], t) ==> succ is Some && ts(
                        self.nodes@[j],
                    ) >= st && (ts(self.nodes@[j]) == st ==> succ->0 <= j),
            decreases self.nodes@.len() - i,
        {
            match self.nodes[i].features.timestamp {
                Some(ts) => {
                    if ts < t {
                        if pred.is_none() || ts > pt {
                            pred = Some(i);
                            pt = ts;
                        }
                    } else if ts > t {
                        if succ.is_none() || ts < st {
                            succ = Some(i);
                            st = ts;
                        }
                    }
                },
                None => {},
            }
            i = i + 1;
        }
        (pred, succ)
    }

    /// Remove every edge from `source` to `target`.
    fn remove_links(&mut self, source: &str, target: &str)
        requires
            old(self).wf(),
        ensures
            final(self).wf(),
            final(self).nodes == old(self).nodes,
            final(self).edges@ == old(self).edges@.filter(not_link(source@, target@)),
    {
        self.adjacency = None;
        let mut kept: Vec<Edge> = Vec::new();
        let mut edges: Vec<Edge> = Vec::new();
        std::mem::swap(&mut edges, &mut self.edges);
        let ghost all = edges@;
        let ghost nodes0 = self.nodes@;
        let mut k: usize = 0;
        while k < edges.len()
            invariant
                all == old(self).edges@,
                nodes0 == old(self).nodes@,
                edges@ == all,
                k <= all.len(),
                kept@ == all.subrange(0, k as int).filter(not_link(source@, target@)),
                forall|j: int| 0 <= j < kept@.len() ==> all.contains(#[trigger] kept@[j]),
            decreases all.len() - k,
        {
            let e = &edges[k];
            proof {
                assert(all.subrange(0, k + 1) =~= all.subrange(0, k as int).push(all[k as int]));
                all.subrange(0, k as int).lemma_filter_push(
                    all[k as int],
                    not_link(source@, target@),
                );
            }
            if !(text_eq(e.source.as_str(), source) && text_eq(e.target.as_str(), target)) {
                kept.push(e.clone_edge());
                proof {
                    assert(all.contains(all[k as int]));
                }
            }
            k = k + 1;
        }
        assert(all.subrange(0, all.len() as int) =~= all);
        self.edges = kept;
        proof {
            assert forall|j: int| 0 <= j < self.edges@.len() implies has_id(
                nodes0,
                #[trigger] self.edges@[j].source@,
            ) && has_id(nodes0, self.edges@[j].target@) by {
                let e = self.edges@[j];
                assert(all.contains(e));
                let m = choose|m: int| 0 <= m < all.len() && all[m] == e;
                assert(has_id(nodes0, all[m].source@));
            }
        }
        self.metadata.edge_count = self.edges.len();
    }

    /// Insert `node` into the temporal chain. Its nearest older neighbour P
    /// and nearest newer neighbour S are found by timestamp; any edge P→S is
    /// removed, and edges P→node (with `to_new`) and node→S (with `from_new`)
    /// are added. Returns how many edges were added. A node without a
    /// timestamp, or with an id already present, leaves the graph unchanged.
    pub fn insert_temporal_node(&mut self, node: Node, to_new: TemporalLink, from_new: TemporalLink) -> (r:
        Result<usize, GraphError>)
        requires
            old(self).wf(),
        ensures
            final(self).wf(),
            node.features.timestamp is None ==> (r matches Err(GraphError::Dimension(
                DimensionError::MissingFeature(f),
            )) && f@ == "timestamp"@),
            node.features.timestamp is Some && has_id(old(self).nodes@, node.id@) ==> (r matches Err(
                GraphError::DuplicateNode { node_id },
            ) && node_id@ == node.id@),
            r is Err ==> final(self).nodes == old(self).nodes && final(self).edges == old(
                self,
            ).edges,
            r is Ok <==> node.features.timestamp is Some && !has_id(old(self).nodes@, node.id@),
            r matches Ok(count) ==> ({
                let t = node.features.timestamp->0;
                let ns = old(self).nodes@;
                let kept = if has_before(ns, t) && has_after(ns, t) {
                    old(self).edges@.filter(
                        not_link(
                            ns[choose|p: int| is_predecessor(ns, t, p)].id@,
                            ns[choose|s: int| is_successor(ns, t, s)].id@,
                        ),
                    )
                } else {
                    old(self).edges@
                };
                &&& final(self).nodes@ == ns.push(node)
                &&& count == (if has_before(ns, t) { 1usize } else { 0 }) + (if has_after(ns, t) {
                    1usize
                } else {
                    0
                })
                &&& final(self).edges@.len() == kept.len() + count
                &&& final(self).edges@.subrange(0, kept.len() as int) == kept
                &&& has_before(ns, t) ==> link_edge(
                    ns[choose|p: int| is_predecessor(ns, t, p)].id@,
                    node.id@,
                    to_new,
                    final(self).edges@[kept.len() as int],
                )
                &&& has_after(ns, t) ==> link_edge(
                    node.id@,
                    ns[choose|s: int| is_successor(ns, t, s)].id@,
                    from_new,
                    final(self).edges@[final(self).edges@.len() - 1],
                )
                &&& has_before(ns, t) && has_after(ns, t) ==> forall|k: int|
                    0 <= k < final(self).edges@.len() ==> !is_link(
                        #[trigger] final(self).edges@[k],
                        ns[choose|p: int| is_predecessor(ns, t, p)].id@,
                        ns[choose|s: int| is_successor(ns, t, s)].id@,
                    )
            }),
    {
        let t = match node.features.timestamp {
            Some(t) => t,
            None => {
                return Err(
                    GraphError::Dimension(
                        DimensionError::MissingFeature(String::from_str("timestamp")),
                    ),
                );
            },
        };
        if self.has_node(node.id.as_str()) {
            return Err(GraphError::DuplicateNode { node_id: node.id });
        }
        let ghost ns = self.nodes@;
        let ghost es = self.edges@;
        let (pred, succ) = self.temporal_neighbors(t);
        proof {
            if has_before(ns, t) {
                lemma_predecessor_unique(ns, t, pred->0 as int);
            }
            if has_after(ns, t) {
                lemma_successor_unique(ns, t, succ->0 as int);
            }
        }
        let pred_id: Option<String> = match pred {
            Some(p) => Some(self.nodes[p].id.clone()),
            None => None,
        };
        let succ_id: Option<String> = match succ {
            Some(s) => Some(self.nodes[s].id.clone()),
            None => None,
        };
        match (&pred_id, &succ_id) {
            (Some(p), Some(s)) => {
                self.remove_links(p.as_str(), s.as_str());
            },
            _ => {},
        }
        let ghost kept = self.edges@;
        let ghost gnode = node;
        let new_id = node.id.clone();
        let added = self.add_node(node);
        assert(self.nodes@ == ns.push(gnode));
        assert(self.nodes@[ns.len() as int].id@ == new_id@);
        let mut count: usize = 0;
        match pred_id {
            Some(p) => {
                assert(self.nodes@[pred->0 as int].id@ == p@);
                let edge = Edge {
                    source: p,
                    target: new_id.clone(),
                    weight: to_new.weight,
                    reason: to_new.reason,
                    created_at: now_millis(),
                    auto_generated: true,
                };
                let ok = self.add_edge(edge);
                count = count + 1;
            },
            None => {},
        }
        assert(count == 0 ==> self.edges@ == kept);
        assert(count == 1 ==> self.edges@.len() == kept.len() + 1 && self.edges@.subrange(0, kept.len() as int) =~= kept);
        let ghost mid = self.edges@;
        match succ_id {
            Some(s) => {
                assert(self.nodes@[succ->0 as int].id@ == s@);
                let edge = Edge {
                    source: new_id,
                    target: s,
                    weight: from_new.weight,
                    reason: from_new.reason,
                    created_at: now_millis(),
                    auto_generated: true,
                };
                let ok = self.add_edge(edge);
                count = count + 1;
                assert(self.edges@ == mid.push(self.edges@.last()));
                assert(self.edges@.subrange(0, kept.len() as int) =~= mid.subrange(0, kept.len() as int));
            },
            None => {},
        }
        proof {
            if has_before(ns, t) && has_after(ns, t) {
                broadcast use vstd::seq_lib::group_filter_ensures;

                let pid = ns[pred->0 as int].id@;
                let sid = ns[succ->0 as int].id@;
                assert(kept == es.filter(not_link(pid, sid)));
                assert(pid != gnode.id@);
                assert(sid != gnode.id@);
                assert forall|k: int| 0 <= k < self.edges@.len() implies !is_link(
                    #[trigger] self.edges@[k],
                    pid,
                    sid,
                ) by {
                    if k < kept.len() {
                        assert(self.edges@[k] == kept[k]);
                        assert(not_link(pid, sid)(kept[k]));
                    }
                }
            }
        }
        Ok(count)
    }
}

pub proof fn lemma_predecessor_unique(nodes: Seq<Node>, t: i64, i: int)
    requires
        is_predecessor(nodes, t, i),
    ensures
        forall|k: int| is_predecessor(nodes, t, k) ==> k == i,
        is_predecessor(nodes, t, choose|p: int| is_predecessor(nodes, t, p)),
        (choose|p: int| is_predecessor(nodes, t, p)) == i,
{
    assert forall|k: int| is_predecessor(nodes, t, k) implies k == i by {
        assert(is_before(nodes[k], t));
        assert(is_before(nodes[i], t));
    }
}

pub proof fn lemma_successor_unique(nodes: Seq<Node>, t: i64, i: int)
    requires
        is_successor(nodes, t, i),
    ensures
        forall|k: int| is_successor(nodes, t, k) ==> k == i,
        is_successor(nodes, t, choose|p: int| is_successor(nodes, t, p)),
        (choose|p: int| is_successor(nodes, t, p)) == i,
{
    assert forall|k: int| is_successor(nodes, t, k) implies k == i by {
        assert(is_after(nodes[k], t));
        assert(is_after(nodes[i], t));
    }
}

} // verus!
