//! Queries over one dimension graph: the nodes related to a set of anchors.

use vstd::prelude::*;
use crate::graph::{DimensionGraph, Edge};
use crate::text::text_eq;

verus! {

#[derive(Debug, Clone, Copy, PartialEq, Eq, Structural)]
pub enum QueryDirection {
    Forward,
    Backward,
    Both,
}

#[derive(Debug, Clone)]
pub struct SingleGraphQuery {
    pub anchors: Vec<String>,
    pub limit: usize,
    /// In millionths.
    pub min_weight: u32,
    pub direction: QueryDirection,
}

#[derive(Debug, Clone)]
pub struct RelatedNode {
    pub node_id: String,
    /// In millionths.
    pub weight: u32,
    pub reason: String,
    pub direction: QueryDirection,
}

#[derive(Debug, Clone)]
pub struct SingleGraphResult {
    pub nodes: Vec<RelatedNode>,
}

pub open spec fn hit(e: Edge, direction: QueryDirection) -> RelatedNode {
    match direction {
        QueryDirection::Backward => RelatedNode {
            node_id: e.source,
            weight: e.weight,
            reason: e.reason,
            direction,
        },
        _ => RelatedNode { node_id: e.target, weight: e.weight, reason: e.reason, direction },
    }
}

/// The related nodes that the edges out of `a` (with weight at least `min`)
/// give, in edge order.
pub open spec fn forward_hits(edges: Seq<Edge>, a: Seq<char>, min: u32) -> Seq<RelatedNode>
    decreases edges.len(),
{
    if edges.len() == 0 {
        Seq::empty()
    } else {
        let rest = forward_hits(edges.drop_last(), a, min);
        let e = edges.last();
        if e.source@ == a && e.weight >= min {
            rest.push(hit(e, QueryDirection::Forward))
        } else {
            rest
        }
    }
}

/// The related nodes that the edges into `a` (with weight at least `min`)
/// give, in edge order.
pub open spec fn backward_hits(edges: Seq<Edge>, a: Seq<char>, min: u32) -> Seq<RelatedNode>
    decreases edges.len(),
{
    if edges.len() == 0 {
        Seq::empty()
    } else {
        let rest = backward_hits(edges.drop_last(), a, min);
        let e = edges.last();
        if e.target@ == a && e.weight >= min {
            rest.push(hit(e, QueryDirection::Backward))
        } else {
            rest
        }
    }
}

pub open spec fn anchor_hits(edges: Seq<Edge>, a: Seq<char>, min: u32, d: QueryDirection) -> Seq<
    RelatedNode,
> {
    (if d != QueryDirection::Backward {
        forward_hits(edges, a, min)
    } else {
        Seq::empty()
    }) + (if d != QueryDirection::Forward {
        backward_hits(edges, a, min)
    } else {
        Seq::empty()
    })
}

/// Every hit of every anchor, anchor by anchor.
pub open spec fn collected(edges: Seq<Edge>, anchors: Seq<String>, min: u32, d: QueryDirection) -> Seq<
    RelatedNode,
>
    decreases anchors.len(),
{
    if anchors.len() == 0 {
        Seq::empty()
    } else {
        collected(edges, anchors.drop_last(), min, d) + anchor_hits(edges, anchors.last()@, min, d)
    }
}

/// The first index in `s` of a related node with id `id`.
pub open spec fn id_index(s: Seq<RelatedNode>, id: Seq<char>) -> Option<int>
    decreases s.len(),
{
    if s.len() == 0 {
        None
    } else {
        match id_index(s.drop_last(), id) {
            Some(i) => Some(i),
            None => if s.last().node_id@ == id {
                Some(s.len() - 1)
            } else {
                None
            },
        }
    }
}

/// One entry per id, at the place of its first occurrence, holding the
/// first of the entries with the highest weight.
pub open spec fn dedup(s: Seq<RelatedNode>) -> Seq<RelatedNode>
    decreases s.len(),
{
    if s.len() == 0 {
        Seq::empty()
    } else {
        let d = dedup(s.drop_last());
        let x = s.last();
        match id_index(d, x.node_id@) {
            Some(j) => if x.weight > d[j].weight {
                d.update(j, x)
            } else {
                d
            },
            None => d.push(x),
        }
    }
}

pub open spec fn is_anchor(anchors: Seq<String>, id: Seq<char>) -> bool {
    exists|i: int| 0 <= i < anchors.len() && anchors[i]@ == id
}

pub open spec fn not_anchor(anchors: Seq<String>) -> spec_fn(RelatedNode) -> bool {
    |n: RelatedNode| !is_anchor(anchors, n.node_id@)
}

/// What a query ranks: the deduplicated hits, anchors left out.
pub open spec fn candidates(edges: Seq<Edge>, q: SingleGraphQuery) -> Seq<RelatedNode> {
    dedup(collected(edges, q.anchors@, q.min_weight, q.direction)).filter(not_anchor(q.anchors@))
}

pub open spec fn by_weight_desc(s: Seq<RelatedNode>) -> bool {
    forall|i: int, j: int| 0 <= i < j < s.len() ==> s[i].weight >= s[j].weight
}

pub fn clone_related(n: &RelatedNode) -> (r: RelatedNode)
    ensures
        r == *n,
{
    RelatedNode {
        node_id: n.node_id.clone(),
        weight: n.weight,
        reason: n.reason.clone(),
        direction: n.direction,
    }
}

fn collect_forward(edges: &Vec<Edge>, anchor: &str, min: u32, out: &mut Vec<RelatedNode>)
    ensures
        final(out)@ == old(out)@ + forward_hits(edges@, anchor@, min),
{
    let ghost start = old(out)@;
    let mut k: usize = 0;
    while k < edges.len()
        invariant
            start == old(out)@,
            k <= edges@.len(),
            out@ == start + forward_hits(edges@.subrange(0, k as int), anchor@, min),
        decreases edges@.len() - k,
    {
        let e = &edges[k];
        assert(edges@.subrange(0, k + 1).drop_last() =~= edges@.subrange(0, k as int));
        if e.weight >= min && text_eq(e.source.as_str(), anchor) {
            out.push(
                RelatedNode {
                    node_id: e.target.clone(),
                    weight: e.weight,
                    reason: e.reason.clone(),
                    direction: QueryDirection::Forward,
                },
            );
        }
        proof {
            assert(out@ =~= start + forward_hits(edges@.subrange(0, k + 1), anchor@, min));
        }
        k = k + 1;
    }
    assert(edges@.subrange(0, edges@.len() as int) =~= edges@);
}

fn collect_backward(edges: &Vec<Edge>, anchor: &str, min: u32, out: &mut Vec<RelatedNode>)
    ensures
        final(out)@ == old(out)@ + backward_hits(edges@, anchor@, min),
{
    let ghost start = old(out)@;
    let mut k: usize = 0;
    while k < edges.len()
        invariant
            start == old(out)@,
            k <= edges@.len(),
            out@ == start + backward_hits(edges@.subrange(0, k as int), anchor@, min),
        decreases edges@.len() - k,
    {
        let e = &edges[k];
        assert(edges@.subrange(0, k + 1).drop_last() =~= edges@.subrange(0, k as int));
        if e.weight >= min && text_eq(e.target.as_str(), anchor) {
            out.push(
                RelatedNode {
                    node_id: e.source.clone(),
                    weight: e.weight,
                    reason: e.reason.clone(),
                    direction: QueryDirection::Backward,
                },
            );
        }
        proof {
            assert(out@ =~= start + backward_hits(edges@.subrange(0, k + 1), anchor@, min));
        }
        k = k + 1;
    }
    assert(edges@.subrange(0, edges@.len() as int) =~= edges@);
}

/// The index of the first entry of `d` with id `id`.
fn find_related(d: &Vec<RelatedNode>, id: &str) -> (r: Option<usize>)
    ensures
        r matches Some(j) ==> id_index(d@, id@) == Some(j as int) && j < d@.len(),
        r is None ==> id_index(d@, id@) is None,
{
    let mut i: usize = 0;
    while i < d.len()
        invariant
            i <= d@.len(),
            id_index(d@.subrange(0, i as int), id@) is None,
        decreases d@.len() - i,
    {
        assert(d@.subrange(0, i + 1).drop_last() =~= d@.subrange(0, i as int));
        if text_eq(d[i].node_id.as_str(), id) {
            proof {
                lemma_id_index_prefix(d@, i as int + 1, id@);
            }
            return Some(i);
        }
        i = i + 1;
    }
    assert(d@.subrange(0, d@.len() as int) =~= d@);
    None
}

/// Where a prefix of `s` already holds `id`, the first index is found there.
proof fn lemma_id_index_prefix(s: Seq<RelatedNode>, n: int, id: Seq<char>)
    requires
        0 <= n <= s.len(),
        id_index(s.subrange(0, n), id) is Some,
    ensures
        id_index(s, id) == id_index(s.subrange(0, n), id),
        id_index(s, id)->0 < n,
    decreases s.len(),
{
    lemma_id_index_bound(s.subrange(0, n), id);
    if n == s.len() {
        assert(s.subrange(0, n) =~= s);
    } else {
        assert(s.drop_last().subrange(0, n) =~= s.subrange(0, n));
        lemma_id_index_prefix(s.drop_last(), n, id);
    }
}

proof fn lemma_id_index_bound(s: Seq<RelatedNode>, id: Seq<char>)
    ensures
        id_index(s, id) matches Some(i) ==> 0 <= i < s.len(),
    decreases s.len(),
{
    if s.len() > 0 {
        lemma_id_index_bound(s.drop_last(), id);
    }
}

fn dedup_hits(c: &Vec<RelatedNode>) -> (r: Vec<RelatedNode>)
    ensures
        r@ == dedup(c@),
{
    let mut d: Vec<RelatedNode> = Vec::new();
    let mut i: usize = 0;
    while i < c.len()
        invariant
            i <= c@.len(),
            d@ == dedup(c@.subrange(0, i as int)),
        decreases c@.len() - i,
    {
        assert(c@.subrange(0, i + 1).drop_last() =~= c@.subrange(0, i as int));
        assert(c@.subrange(0, i + 1).last() == c@[i as int]);
        let x = &c[i];
        let ghost d0 = d@;
        assert(dedup(c@.subrange(0, i + 1)) == match id_index(d0, x.node_id@) {
            Some(j) => if x.weight > d0[j].weight {
                d0.update(j, *x)
            } else {
                d0
            },
            None => d0.push(*x),
        });
        match find_related(&d, x.node_id.as_str()) {
            Some(j) => {
                assert(id_index(d0, x.node_id@) == Some(j as int));
                if x.weight > d[j].weight {
                    d.set(j, clone_related(x));
                    assert(d@ == d0.update(j as int, *x));
                }
            },
            None => {
                assert(id_index(d0, x.node_id@) is None);
                d.push(clone_related(x));
            },
        }
        i = i + 1;
    }
    assert(c@.subrange(0, c@.len() as int) =~= c@);
    d
}

fn is_anchor_id(anchors: &Vec<String>, id: &str) -> (r: bool)
    ensures
        r == is_anchor(anchors@, id@),
{
    let mut i: usize = 0;
    while i < anchors.len()
        invariant
            i <= anchors@.len(),
            forall|k: int| 0 <= k < i ==> anchors@[k]@ != id@,
        decreases anchors@.len() - i,
    {
        if text_eq(anchors[i].as_str(), id) {
            return true;
        }
        i = i + 1;
    }
    false
}

fn drop_anchors(d: &Vec<RelatedNode>, anchors: &Vec<String>) -> (r: Vec<RelatedNode>)
    ensures
        r@ == d@.filter(not_anchor(anchors@)),
{
    let mut out: Vec<RelatedNode> = Vec::new();
    let mut i: usize = 0;
    while i < d.len()
        invariant
            i <= d@.len(),
            out@ == d@.subrange(0, i as int).filter(not_anchor(anchors@)),
        decreases d@.len() - i,
    {
        proof {
            assert(d@.subrange(0, i + 1) =~= d@.subrange(0, i as int).push(d@[i as int]));
            d@.subrange(0, i as int).lemma_filter_push(d@[i as int], not_anchor(anchors@));
        }
        if !is_anchor_id(anchors, d[i].node_id.as_str()) {
            out.push(clone_related(&d[i]));
        }
        i = i + 1;
    }
    assert(d@.subrange(0, d@.len() as int) =~= d@);
    out
}

/// Where an entry of weight `w` goes in `s` from index `k` on: before the
/// first entry of lower weight.
pub open spec fn slot_from(s: Seq<RelatedNode>, w: u32, k: int) -> int
    decreases s.len() - k,
{
    if k < 0 || k >= s.len() {
        s.len() as int
    } else if s[k].weight < w {
        k
    } else {
        slot_from(s, w, k + 1)
    }
}

/// `s` ranked by weight, highest first, equal weights in their order.
pub open spec fn ranked(s: Seq<RelatedNode>) -> Seq<RelatedNode>
    decreases s.len(),
{
    if s.len() == 0 {
        s
    } else {
        let r = ranked(s.drop_last());
        r.insert(slot_from(r, s.last().weight, 0), s.last())
    }
}

/// The first `n` entries of `s` (all of them when there are fewer).
pub open spec fn take(s: Seq<RelatedNode>, n: int) -> Seq<RelatedNode> {
    if n < s.len() {
        s.subrange(0, n)
    } else {
        s
    }
}

/// `s` ordered by weight, highest first, keeping the order of equal weights.
fn sort_by_weight(s: Vec<RelatedNode>) -> (r: Vec<RelatedNode>)
    ensures
        r@ == ranked(s@),
        r@.to_multiset() == s@.to_multiset(),
        r@.len() == s@.len(),
        by_weight_desc(r@),
{
    let mut out: Vec<RelatedNode> = Vec::new();
    let mut i: usize = 0;
    proof {
        assert(s@.subrange(0, 0) =~= out@);
    }
    while i < s.len()
        invariant
            i <= s@.len(),
            out@.len() == i,
            out@.to_multiset() == s@.subrange(0, i as int).to_multiset(),
            by_weight_desc(out@),
            out@ == ranked(s@.subrange(0, i as int)),
        decreases s@.len() - i,
    {
        let m = clone_related(&s[i]);
        let mut pos: usize = 0;
        while pos < out.len() && out[pos].weight >= m.weight
            invariant
                pos <= out@.len(),
                forall|k: int| 0 <= k < pos ==> out@[k].weight >= m.weight,
                slot_from(out@, m.weight, 0) == slot_from(out@, m.weight, pos as int),
            decreases out@.len() - pos,
        {
            pos = pos + 1;
        }
        assert(slot_from(out@, m.weight, pos as int) == pos);
        let ghost before = out@;
        let ghost mm = m;
        out.insert(pos, m);
        proof {
            assert(s@.subrange(0, i + 1) =~= s@.subrange(0, i as int).push(s@[i as int]));
            assert(s@.subrange(0, i + 1).drop_last() =~= s@.subrange(0, i as int));
            vstd::seq_lib::to_multiset_insert(before, pos as int, mm);
            vstd::seq_lib::to_multiset_build(s@.subrange(0, i as int), s@[i as int]);
            assert forall|a: int, b: int| 0 <= a < b < out@.len() implies out@[a].weight
                >= out@[b].weight by {
                if b < pos {
                    assert(out@[a] == before[a] && out@[b] == before[b]);
                } else if b == pos {
                    assert(out@[a] == before[a]);
                } else if a < pos {
                    assert(out@[a] == before[a] && out@[b] == before[b - 1]);
                    if pos < before.len() {
                        assert(before[pos as int].weight < mm.weight);
                    }
                } else if a == pos {
                    assert(out@[b] == before[b - 1]);
                    assert(before[pos as int].weight < mm.weight);
                } else {
                    assert(out@[a] == before[a - 1] && out@[b] == before[b - 1]);
                }
            }
        }
        i = i + 1;
    }
    assert(s@.subrange(0, s@.len() as int) =~= s@);
    out
}

/// No id occurs twice.
pub open spec fn distinct_ids(s: Seq<RelatedNode>) -> bool {
    forall|a: int, b: int| 0 <= a < b < s.len() ==> s[a].node_id@ != s[b].node_id@
}

proof fn lemma_id_index_none(s: Seq<RelatedNode>, id: Seq<char>)
    ensures
        id_index(s, id) is None ==> forall|k: int| 0 <= k < s.len() ==> s[k].node_id@ != id,
    decreases s.len(),
{
    if s.len() > 0 {
        lemma_id_index_none(s.drop_last(), id);
        if id_index(s, id) is None {
            assert forall|k: int| 0 <= k < s.len() implies s[k].node_id@ != id by {
                if k < s.len() - 1 {
                    assert(s[k] == s.drop_last()[k]);
                }
            }
        }
    }
}

proof fn lemma_id_index_found(s: Seq<RelatedNode>, id: Seq<char>)
    ensures
        id_index(s, id) matches Some(j) ==> 0 <= j < s.len() && s[j].node_id@ == id,
    decreases s.len(),
{
    if s.len() > 0 {
        lemma_id_index_found(s.drop_last(), id);
    }
}

proof fn lemma_dedup_distinct(s: Seq<RelatedNode>)
    ensures
        distinct_ids(dedup(s)),
    decreases s.len(),
{
    if s.len() > 0 {
        lemma_dedup_distinct(s.drop_last());
        let d = dedup(s.drop_last());
        let x = s.last();
        lemma_id_index_found(d, x.node_id@);
        lemma_id_index_none(d, x.node_id@);
    }
}

proof fn lemma_filter_distinct(s: Seq<RelatedNode>, f: spec_fn(RelatedNode) -> bool)
    requires
        distinct_ids(s),
    ensures
        distinct_ids(s.filter(f)),
        forall|k: int| 0 <= k < s.filter(f).len() ==> s.contains(#[trigger] s.filter(f)[k]),
    decreases s.len(),
{
    if s.len() > 0 {
        let p = s.drop_last();
        assert(s =~= p.push(s.last()));
        p.lemma_filter_push(s.last(), f);
        lemma_filter_distinct(p, f);
        let fp = p.filter(f);
        assert forall|k: int| 0 <= k < fp.len() implies fp[k].node_id@ != s.last().node_id@ by {
            assert(p.contains(fp[k]));
            let j = choose|j: int| 0 <= j < p.len() && p[j] == fp[k];
            assert(s[j] == p[j]);
        }
        assert forall|k: int| 0 <= k < s.filter(f).len() implies s.contains(
            #[trigger] s.filter(f)[k],
        ) by {
            if k < fp.len() {
                assert(p.contains(fp[k]));
                let j = choose|j: int| 0 <= j < p.len() && p[j] == fp[k];
                assert(s[j] == p[j]);
            } else {
                assert(s[s.len() - 1] == s.last());
            }
        }
    } else {
        assert(s.filter(f) =~= s);
    }
}

proof fn lemma_slot_bound(s: Seq<RelatedNode>, w: u32, k: int)
    requires
        0 <= k,
    ensures
        k <= s.len() ==> k <= slot_from(s, w, k) <= s.len(),
        k > s.len() ==> slot_from(s, w, k) == s.len(),
    decreases s.len() - k,
{
    if k < s.len() && s[k].weight >= w {
        lemma_slot_bound(s, w, k + 1);
    }
}

proof fn lemma_ranked_perm(s: Seq<RelatedNode>)
    ensures
        ranked(s).len() == s.len(),
        forall|k: int| 0 <= k < ranked(s).len() ==> s.contains(#[trigger] ranked(s)[k]),
        distinct_ids(s) ==> distinct_ids(ranked(s)),
    decreases s.len(),
{
    if s.len() > 0 {
        let p = s.drop_last();
        lemma_ranked_perm(p);
        let r = ranked(p);
        let x = s.last();
        let pos = slot_from(r, x.weight, 0);
        lemma_slot_bound(r, x.weight, 0);
        let out = r.insert(pos, x);
        assert forall|k: int| 0 <= k < out.len() implies s.contains(#[trigger] out[k]) by {
            if k < pos {
                assert(out[k] == r[k]);
                let j = choose|j: int| 0 <= j < p.len() && p[j] == r[k];
                assert(s[j] == p[j]);
            } else if k == pos {
                assert(s[s.len() - 1] == x);
            } else {
                assert(out[k] == r[k - 1]);
                let j = choose|j: int| 0 <= j < p.len() && p[j] == r[k - 1];
                assert(s[j] == p[j]);
            }
        }
        if distinct_ids(s) {
            assert(distinct_ids(p)) by {
                assert forall|a: int, b: int| 0 <= a < b < p.len() implies p[a].node_id@
                    != p[b].node_id@ by {
                    assert(p[a] == s[a] && p[b] == s[b]);
                }
            }
            assert forall|k: int| 0 <= k < r.len() implies r[k].node_id@ != x.node_id@ by {
                assert(p.contains(r[k]));
                let j = choose|j: int| 0 <= j < p.len() && p[j] == r[k];
                assert(s[j] == p[j]);
            }
            assert forall|a: int, b: int| 0 <= a < b < out.len() implies out[a].node_id@
                != out[b].node_id@ by {
                if b < pos {
                    assert(out[a] == r[a] && out[b] == r[b]);
                } else if b == pos {
                    assert(out[a] == r[a]);
                } else if a < pos {
                    assert(out[a] == r[a] && out[b] == r[b - 1]);
                } else if a == pos {
                    assert(out[b] == r[b - 1]);
                } else {
                    assert(out[a] == r[a - 1] && out[b] == r[b - 1]);
                }
            }
        }
    }
}

/// What a query returns has no id twice.
pub proof fn lemma_query_distinct(edges: Seq<Edge>, q: SingleGraphQuery)
    ensures
        distinct_ids(take(ranked(candidates(edges, q)), q.limit as int)),
{
    let d = dedup(collected(edges, q.anchors@, q.min_weight, q.direction));
    lemma_dedup_distinct(collected(edges, q.anchors@, q.min_weight, q.direction));
    lemma_filter_distinct(d, not_anchor(q.anchors@));
    lemma_ranked_perm(candidates(edges, q));
}

impl DimensionGraph {
    /// The nodes related to the anchors: the hits of each anchor's edges in
    /// the requested directions (weight at least `min_weight`), one per id
    /// with its highest weight, anchors left out, highest weight first, at
    /// most `limit` of them.
    pub fn query(&self, request: &SingleGraphQuery) -> (r: SingleGraphResult)
        ensures
            ({
                let c = candidates(self.edges@, *request);
                &&& r.nodes@ == take(ranked(c), request.limit as int)
                &&& r.nodes@.len() == if request.limit < c.len() {
                    request.limit as int
                } else {
                    c.len() as int
                }
                &&& by_weight_desc(r.nodes@)
                &&& forall|i: int| 0 <= i < r.nodes@.len() ==> c.contains(#[trigger] r.nodes@[i])
                &&& forall|x: RelatedNode|
                    c.contains(x) && !r.nodes@.contains(x) ==> r.nodes@.len() == request.limit && (
                    r.nodes@.len() > 0 ==> x.weight <= r.nodes@.last().weight)
            }),
    {
        let mut results: Vec<RelatedNode> = Vec::new();
        let mut i: usize = 0;
        let d = request.direction;
        while i < request.anchors.len()
            invariant
                i <= request.anchors@.len(),
                d == request.direction,
                results@ == collected(
                    self.edges@,
                    request.anchors@.subrange(0, i as int),
                    request.min_weight,
                    d,
                ),
            decreases request.anchors@.len() - i,
        {
            let a = request.anchors[i].as_str();
            let ghost before = results@;
            if d != QueryDirection::Backward {
                collect_forward(&self.edges, a, request.min_weight, &mut results);
            }
            let ghost mid = results@;
            if d != QueryDirection::Forward {
                collect_backward(&self.edges, a, request.min_weight, &mut results);
            }
            proof {
                let pre = request.anchors@.subrange(0, i + 1);
                assert(pre.drop_last() =~= request.anchors@.subrange(0, i as int));
                assert(results@ =~= before + anchor_hits(
                    self.edges@,
                    request.anchors@[i as int]@,
                    request.min_weight,
                    d,
                ));
            }
            i = i + 1;
        }
        assert(request.anchors@.subrange(0, request.anchors@.len() as int) =~= request.anchors@);
        let deduped = dedup_hits(&results);
        let kept = drop_anchors(&deduped, &request.anchors);
        let ghost c = kept@;
        let mut sorted = sort_by_weight(kept);
        let ghost full = sorted@;
        sorted.truncate(request.limit);
        assert(request.limit <= full.len() ==> sorted@ == full.subrange(0, request.limit as int));
        assert(sorted@ =~= take(ranked(c), request.limit as int));
        assert(request.limit > full.len() ==> sorted@ == full);
        proof {
            broadcast use vstd::seq_lib::group_to_multiset_ensures;

            assert forall|k: int| 0 <= k < sorted@.len() implies c.contains(
                #[trigger] sorted@[k],
            ) by {
                assert(full.contains(full[k]));
                assert(full.to_multiset().count(full[k]) > 0);
                assert(c.to_multiset().count(full[k]) > 0);
            }
            assert forall|x: RelatedNode| c.contains(x) && !sorted@.contains(x) implies sorted@.len()
                == request.limit && (sorted@.len() > 0 ==> x.weight <= sorted@.last().weight) by {
                assert(c.to_multiset().count(x) > 0);
                assert(full.to_multiset().count(x) > 0);
                assert(full.contains(x));
                let j = choose|j: int| 0 <= j < full.len() && full[j] == x;
                if j < sorted@.len() {
                    assert(sorted@[j] == x);
                }
                assert(j >= sorted@.len());
                assert(sorted@.len() == request.limit);
                if sorted@.len() > 0 {
                    assert(full[sorted@.len() - 1] == sorted@.last());
                    assert(full[sorted@.len() - 1].weight >= full[j].weight);
                }
            }
        }
        SingleGraphResult { nodes: sorted }
    }
}

} // verus!
