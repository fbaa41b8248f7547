//! Queries across several dimensions of one scope: each dimension's
//! related nodes, weighted by the dimension's weight and summed per node.

use vstd::prelude::*;
use crate::graph::DimensionGraph;
use crate::query::{
    QueryDirection, RelatedNode, SingleGraphQuery, by_weight_desc, candidates, distinct_ids, lemma_query_distinct, ranked, take,
};
use crate::text::text_eq;
use crate::types::SCORE_ONE;

verus! {

/// How much one dimension counts, in millionths.
#[derive(Debug, Clone)]
pub struct DimensionWeight {
    pub dimension: String,
    pub weight: u32,
}

#[derive(Debug, Clone)]
pub struct MultiGraphQuery {
    pub anchors: Vec<String>,
    pub dimension_weights: Vec<DimensionWeight>,
    pub limit: usize,
    /// In millionths.
    pub min_score: u64,
}

/// One dimension's raw weight for a node.
#[derive(Debug, Clone)]
pub struct DimensionScore {
    pub dimension: String,
    pub weight: u32,
}

#[derive(Debug, Clone)]
pub struct ScoredNode {
    pub node_id: String,
    /// The sum over dimensions of dimension weight times edge weight, in millionths.
    pub total_score: u64,
    pub dimension_scores: Vec<DimensionScore>,
    pub reasons: Vec<String>,
}

/// What one dimension gave for one node.
#[derive(Debug, Clone)]
pub struct DimensionContribution {
    pub node_id: String,
    pub raw_weight: u32,
    pub weighted_score: u64,
    pub reason: String,
}

#[derive(Debug, Clone)]
pub struct DimensionContributions {
    pub dimension: String,
    pub entries: Vec<DimensionContribution>,
}

#[derive(Debug, Clone)]
pub struct MultiGraphResult {
    pub nodes: Vec<ScoredNode>,
    pub contributions: Vec<DimensionContributions>,
}

/// A dimension weight applied to an edge weight, both in millionths.
pub open spec fn weighted(w: u32, x: u32) -> u64 {
    (w as int * x as int / SCORE_ONE as int) as u64
}

pub open spec fn sat_add(a: u64, b: u64) -> u64 {
    if a as int + b as int > u64::MAX as int {
        u64::MAX
    } else {
        (a + b) as u64
    }
}

/// The weighted scores that the hits `nodes` of a dimension of weight `w` give.
pub open spec fn scored_hits(w: u32, nodes: Seq<RelatedNode>) -> Seq<(Seq<char>, u64)> {
    nodes.map_values(|n: RelatedNode| (n.node_id@, weighted(w, n.weight)))
}

/// The sum (saturating) of the scores that `entries` give `id`.
pub open spec fn total_of(entries: Seq<(Seq<char>, u64)>, id: Seq<char>) -> u64
    decreases entries.len(),
{
    if entries.len() == 0 {
        0
    } else {
        let rest = total_of(entries.drop_last(), id);
        if entries.last().0 == id {
            sat_add(rest, entries.last().1)
        } else {
            rest
        }
    }
}

/// The scores of `nodes` are those of `hits`, one for one, weighted by `w`.
pub open spec fn scored_as(nodes: Seq<ScoredNode>, hits: Seq<RelatedNode>, w: u32) -> bool {
    &&& nodes.len() == hits.len()
    &&& forall|k: int|
        0 <= k < nodes.len() ==> #[trigger] nodes[k].node_id@ == hits[k].node_id@
            && nodes[k].total_score == weighted(w, hits[k].weight)
}

pub open spec fn by_total_desc(s: Seq<ScoredNode>) -> bool {
    forall|i: int, j: int| 0 <= i < j < s.len() ==> s[i].total_score >= s[j].total_score
}

/// The query each dimension's graph is asked.
pub open spec fn dimension_query(request: MultiGraphQuery, q: SingleGraphQuery) -> bool {
    &&& q.anchors@ == request.anchors@
    &&& q.min_weight == 0
    &&& q.direction == QueryDirection::Both
    &&& q.limit == if request.limit as int * 2 > usize::MAX as int {
        usize::MAX as int
    } else {
        request.limit as int * 2
    }
}

pub open spec fn contribution_of(w: u32, n: RelatedNode, c: DimensionContribution) -> bool {
    &&& c.node_id@ == n.node_id@
    &&& c.raw_weight == n.weight
    &&& c.weighted_score == weighted(w, n.weight)
    &&& c.reason@ == n.reason@
}

fn weigh(w: u32, x: u32) -> (r: u64)
    ensures
        r == weighted(w, x),
{
    proof {
        let a = w as int;
        let b = x as int;
        assert(0 <= a * b <= 0xffff_ffff * 0xffff_ffffint) by (nonlinear_arith)
            requires
                0 <= a <= 0xffff_ffff,
                0 <= b <= 0xffff_ffff,
        ;
        assert(a * b / SCORE_ONE as int <= a * b) by (nonlinear_arith)
            requires
                0 <= a * b,
        ;
    }
    (w as u64 * x as u64 / SCORE_ONE as u64)
}

/// What a scored node says: its id, total, per-dimension raw weights and reasons.
pub struct ScoreView {
    pub id: Seq<char>,
    pub total: u64,
    pub dims: Seq<(Seq<char>, u32)>,
    pub reasons: Seq<Seq<char>>,
}

pub open spec fn dim_views(v: Seq<DimensionScore>) -> Seq<(Seq<char>, u32)> {
    v.map_values(|d: DimensionScore| (d.dimension@, d.weight))
}

pub open spec fn score_view(n: ScoredNode) -> ScoreView {
    ScoreView {
        id: n.node_id@,
        total: n.total_score,
        dims: dim_views(n.dimension_scores@),
        reasons: n.reasons@.map_values(|t: String| t@),
    }
}

pub open spec fn score_views(s: Seq<ScoredNode>) -> Seq<ScoreView> {
    s.map_values(|n: ScoredNode| score_view(n))
}

/// The first index of the entry for `id`.
pub open spec fn view_index(s: Seq<ScoreView>, id: Seq<char>) -> Option<int>
    decreases s.len(),
{
    if s.len() == 0 {
        None
    } else {
        match view_index(s.drop_last(), id) {
            Some(i) => Some(i),
            None => if s.last().id == id {
                Some(s.len() - 1)
            } else {
                None
            },
        }
    }
}

/// One hit of dimension `dim` (weight `w`) added to the scores: summed
/// into its node's entry, or a new entry at the end.
pub open spec fn add_hit(s: Seq<ScoreView>, dim: Seq<char>, w: u32, h: RelatedNode) -> Seq<ScoreView> {
    match view_index(s, h.node_id@) {
        Some(j) => s.update(
            j,
            ScoreView {
                id: s[j].id,
                total: sat_add(s[j].total, weighted(w, h.weight)),
                dims: s[j].dims.push((dim, h.weight)),
                reasons: s[j].reasons.push(h.reason@),
            },
        ),
        None => s.push(
            ScoreView {
                id: h.node_id@,
                total: weighted(w, h.weight),
                dims: seq![(dim, h.weight)],
                reasons: seq![h.reason@],
            },
        ),
    }
}

pub open spec fn add_hits(s: Seq<ScoreView>, dim: Seq<char>, w: u32, hits: Seq<RelatedNode>) -> Seq<
    ScoreView,
>
    decreases hits.len(),
{
    if hits.len() == 0 {
        s
    } else {
        add_hit(add_hits(s, dim, w, hits.drop_last()), dim, w, hits.last())
    }
}

proof fn lemma_view_index(s: Seq<ScoreView>, id: Seq<char>, i: int)
    requires
        0 <= i < s.len(),
        s[i].id == id,
        forall|k: int| 0 <= k < i ==> s[k].id != id,
    ensures
        view_index(s, id) == Some(i),
    decreases s.len(),
{
    if i < s.len() - 1 {
        lemma_view_index(s.drop_last(), id, i);
    } else {
        lemma_view_index_none(s.drop_last(), id);
    }
}

proof fn lemma_view_index_none(s: Seq<ScoreView>, id: Seq<char>)
    requires
        forall|k: int| 0 <= k < s.len() ==> s[k].id != id,
    ensures
        view_index(s, id) is None,
    decreases s.len(),
{
    if s.len() > 0 {
        lemma_view_index_none(s.drop_last(), id);
    }
}

fn copy_dims(v: &Vec<DimensionScore>) -> (r: Vec<DimensionScore>)
    ensures
        dim_views(r@) == dim_views(v@),
{
    let mut out: Vec<DimensionScore> = Vec::new();
    let mut i: usize = 0;
    while i < v.len()
        invariant
            i <= v@.len(),
            out@.len() == i,
            forall|k: int|
                0 <= k < i ==> (#[trigger] out@[k]).dimension@ == v@[k].dimension@ && out@[k].weight
                    == v@[k].weight,
        decreases v@.len() - i,
    {
        out.push(DimensionScore { dimension: v[i].dimension.clone(), weight: v[i].weight });
        i = i + 1;
    }
    assert(dim_views(out@) =~= dim_views(v@));
    out
}

/// Where an entry of total `t` goes in `s` from index `k` on: before the
/// first entry of lower total.
pub open spec fn total_slot(s: Seq<ScoreView>, t: u64, k: int) -> int
    decreases s.len() - k,
{
    if k < 0 || k >= s.len() {
        s.len() as int
    } else if s[k].total < t {
        k
    } else {
        total_slot(s, t, k + 1)
    }
}

/// `s` ranked by total, highest first, equal totals in their order.
pub open spec fn ranked_totals(s: Seq<ScoreView>) -> Seq<ScoreView>
    decreases s.len(),
{
    if s.len() == 0 {
        s
    } else {
        let r = ranked_totals(s.drop_last());
        r.insert(total_slot(r, s.last().total, 0), s.last())
    }
}

pub open spec fn reaches(min: u64) -> spec_fn(ScoreView) -> bool {
    |v: ScoreView| v.total >= min
}

pub open spec fn take_views(s: Seq<ScoreView>, n: int) -> Seq<ScoreView> {
    if n < s.len() {
        s.subrange(0, n)
    } else {
        s
    }
}

/// The limit each dimension's graph is queried with: twice the request's.
pub open spec fn inner_of(limit: usize) -> usize {
    if limit > usize::MAX / 2 {
        usize::MAX
    } else {
        (limit * 2) as usize
    }
}

/// Dimension `d` counts: positive weight, graph at hand.
pub open spec fn active(request: MultiGraphQuery, graphs: Seq<Option<&DimensionGraph>>, d: int) -> bool {
    request.dimension_weights@[d].weight > 0 && graphs[d] is Some
}

/// What dimension `d`'s graph answers.
pub open spec fn dim_hits(request: MultiGraphQuery, graphs: Seq<Option<&DimensionGraph>>, d: int) -> Seq<
    RelatedNode,
> {
    take(
        ranked(candidates(graphs[d]->0.edges@, plain_query(request, inner_of(request.limit)))),
        inner_of(request.limit) as int,
    )
}

/// The scores after the first `n` dimensions.
pub open spec fn scores_upto(request: MultiGraphQuery, graphs: Seq<Option<&DimensionGraph>>, n: int) -> Seq<
    ScoreView,
>
    decreases n,
{
    if n <= 0 {
        Seq::empty()
    } else {
        let s = scores_upto(request, graphs, n - 1);
        if active(request, graphs, n - 1) {
            add_hits(
                s,
                request.dimension_weights@[n - 1].dimension@,
                request.dimension_weights@[n - 1].weight,
                dim_hits(request, graphs, n - 1),
            )
        } else {
            s
        }
    }
}

pub type ContributionView = (Seq<char>, u32, u64, Seq<char>);

pub open spec fn contribution_view(c: DimensionContribution) -> ContributionView {
    (c.node_id@, c.raw_weight, c.weighted_score, c.reason@)
}

pub open spec fn hit_contribution(w: u32, h: RelatedNode) -> ContributionView {
    (h.node_id@, h.weight, weighted(w, h.weight), h.reason@)
}

pub open spec fn contributions_view(cs: Seq<DimensionContributions>) -> Seq<(Seq<char>, Seq<ContributionView>)> {
    cs.map_values(
        |c: DimensionContributions|
            (c.dimension@, c.entries@.map_values(|e: DimensionContribution| contribution_view(e))),
    )
}

/// One list per counting dimension among the first `n`, of its hits.
pub open spec fn contributions_upto(
    request: MultiGraphQuery,
    graphs: Seq<Option<&DimensionGraph>>,
    n: int,
) -> Seq<(Seq<char>, Seq<ContributionView>)>
    decreases n,
{
    if n <= 0 {
        Seq::empty()
    } else {
        let s = contributions_upto(request, graphs, n - 1);
        if active(request, graphs, n - 1) {
            let w = request.dimension_weights@[n - 1].weight;
            s.push(
                (
                    request.dimension_weights@[n - 1].dimension@,
                    dim_hits(request, graphs, n - 1).map_values(|h: RelatedNode| hit_contribution(w, h)),
                ),
            )
        } else {
            s
        }
    }
}

fn find_scored(s: &Vec<ScoredNode>, id: &str) -> (r: Option<usize>)
    ensures
        r matches Some(i) ==> i < s@.len() && s@[i as int].node_id@ == id@ && forall|k: int|
            0 <= k < i ==> s@[k].node_id@ != id@,
        r is None ==> forall|k: int| 0 <= k < s@.len() ==> s@[k].node_id@ != id@,
{
    let mut i: usize = 0;
    while i < s.len()
        invariant
            i <= s@.len(),
            forall|k: int| 0 <= k < i ==> s@[k].node_id@ != id@,
        decreases s@.len() - i,
    {
        if text_eq(s[i].node_id.as_str(), id) {
            return Some(i);
        }
        i = i + 1;
    }
    None
}

/// Add one dimension's hits into the running scores.
fn accumulate(
    scored: &mut Vec<ScoredNode>,
    dimension: &String,
    w: u32,
    hits: &Vec<RelatedNode>,
    seen: Ghost<Seq<(Seq<char>, u64)>>,
)
    requires
        forall|a: int, b: int|
            0 <= a < b < old(scored)@.len() ==> old(scored)@[a].node_id@ != old(scored)@[b].node_id@,
        forall|k: int|
            0 <= k < old(scored)@.len() ==> #[trigger] old(scored)@[k].total_score == total_of(
                seen@,
                old(scored)@[k].node_id@,
            ),
        forall|k: int|
            0 <= k < old(scored)@.len() ==> total_of(seen@, #[trigger] old(scored)@[k].node_id@)
                == old(scored)@[k].total_score,
        forall|id: Seq<char>|
            total_of(seen@, id) != 0 ==> exists|k: int|
                0 <= k < old(scored)@.len() && #[trigger] old(scored)@[k].node_id@ == id,
    ensures
        forall|a: int, b: int|
            0 <= a < b < final(scored)@.len() ==> (final(scored)@[a].node_id@
                != final(scored)@[b].node_id@),
        forall|k: int|
            0 <= k < final(scored)@.len() ==> #[trigger] final(scored)@[k].total_score == total_of(
                seen@ + scored_hits(w, hits@),
                final(scored)@[k].node_id@,
            ),
        forall|id: Seq<char>|
            total_of(seen@ + scored_hits(w, hits@), id) != 0 ==> exists|k: int|
                0 <= k < final(scored)@.len() && #[trigger] final(scored)@[k].node_id@ == id,
        old(scored)@.len() == 0 && distinct_ids(hits@) ==> scored_as(final(scored)@, hits@, w),
        score_views(final(scored)@) == add_hits(score_views(old(scored)@), dimension@, w, hits@),
{
    let ghost start_views = score_views(old(scored)@);
    let ghost base = seen@;
    let ghost fresh = old(scored)@.len() == 0 && distinct_ids(hits@);
    let mut i: usize = 0;
    while i < hits.len()
        invariant
            i <= hits@.len(),
            forall|a: int, b: int|
                0 <= a < b < (*scored)@.len() ==> (*scored)@[a].node_id@ != (*scored)@[b].node_id@,
            forall|k: int|
                0 <= k < (*scored)@.len() ==> #[trigger] (*scored)@[k].total_score == total_of(
                    base + scored_hits(w, hits@.subrange(0, i as int)),
                    (*scored)@[k].node_id@,
                ),
            forall|id: Seq<char>|
                total_of(base + scored_hits(w, hits@.subrange(0, i as int)), id) != 0 ==> exists|
                    k: int,
                |
                    0 <= k < (*scored)@.len() && #[trigger] (*scored)@[k].node_id@ == id,
            fresh == (old(scored)@.len() == 0 && distinct_ids(hits@)),
            fresh ==> scored_as((*scored)@, hits@.subrange(0, i as int), w),
            start_views == score_views(old(scored)@),
            score_views((*scored)@) == add_hits(start_views, dimension@, w, hits@.subrange(0, i as int)),
        decreases hits@.len() - i,
    {
        let n = &hits[i];
        let score = weigh(w, n.weight);
        let ghost prev = base + scored_hits(w, hits@.subrange(0, i as int));
        let ghost next = base + scored_hits(w, hits@.subrange(0, i + 1));
        proof {
            assert(next =~= prev.push((n.node_id@, score)));
            assert(next.drop_last() =~= prev);
        }
        let ghost before = (*scored)@;
        let ghost pv = score_views(before);
        proof {
            assert(hits@.subrange(0, i + 1).drop_last() =~= hits@.subrange(0, i as int));
            assert(hits@.subrange(0, i + 1).last() == hits@[i as int]);
            assert(add_hits(start_views, dimension@, w, hits@.subrange(0, i + 1)) == add_hit(
                pv,
                dimension@,
                w,
                *n,
            ));
        }
        match find_scored(scored, n.node_id.as_str()) {
            Some(j) => {
                proof {
                    lemma_view_index(pv, n.node_id@, j as int);
                    if fresh {
                        assert(hits@.subrange(0, i as int)[j as int] == hits@[j as int]);
                        assert(hits@[j as int].node_id@ != hits@[i as int].node_id@);
                    }
                }
                let old_entry = &scored[j];
                let total = if old_entry.total_score > u64::MAX - score {
                    u64::MAX
                } else {
                    old_entry.total_score + score
                };
                let mut dims = copy_dims(&old_entry.dimension_scores);
                dims.push(DimensionScore { dimension: dimension.clone(), weight: n.weight });
                let mut reasons = clone_texts(&old_entry.reasons);
                reasons.push(n.reason.clone());
                let entry = ScoredNode {
                    node_id: old_entry.node_id.clone(),
                    total_score: total,
                    dimension_scores: dims,
                    reasons,
                };
                let ghost placed = entry;
                scored.set(j, entry);
                proof {
                    assert((*scored)@ == before.update(j as int, placed));
                    assert(dim_views(placed.dimension_scores@) =~= pv[j as int].dims.push(
                        (dimension@, n.weight),
                    ));
                    assert(placed.reasons@.map_values(|t: String| t@) =~= pv[j as int].reasons.push(
                        n.reason@,
                    ));
                    assert(score_views((*scored)@) =~= add_hit(pv, dimension@, w, *n));
                    assert forall|a: int, b: int| 0 <= a < b < (*scored)@.len() implies (*scored)@[a].node_id@
                        != (*scored)@[b].node_id@ by {
                        assert(before[a].node_id@ != before[b].node_id@);
                    }
                    assert((*scored)@[j as int].node_id == before[j as int].node_id);
                    assert(before[j as int].node_id@ == n.node_id@);
                    assert(next.last().0 == n.node_id@);
                    assert(total_of(next, n.node_id@) == sat_add(total_of(prev, n.node_id@), score));
                    assert((*scored)@[j as int].total_score == sat_add(before[j as int].total_score, score));
                    assert forall|k: int| 0 <= k < (*scored)@.len() implies #[trigger] (*scored)@[k].total_score
                        == total_of(next, (*scored)@[k].node_id@) by {
                        if k == j {
                            assert((*scored)@[k] == placed);
                        } else {
                            assert((*scored)@[k] == before[k]);
                            assert(before[k].total_score == total_of(prev, before[k].node_id@));
                            assert(before[k].node_id@ != before[j as int].node_id@);
                            if before[k].node_id@ != n.node_id@ {
                                assert(total_of(next, before[k].node_id@) == total_of(prev, before[k].node_id@));
                            } else {
                                assert(total_of(next, before[k].node_id@) == sat_add(total_of(prev, before[k].node_id@), score));
                            }
                        }
                    }
                    assert forall|id: Seq<char>| total_of(next, id) != 0 implies exists|k: int|
                        0 <= k < (*scored)@.len() && #[trigger] (*scored)@[k].node_id@ == id by {
                        if id != n.node_id@ {
                            assert(total_of(next, id) == total_of(prev, id));
                            let k = choose|k: int|
                                0 <= k < before.len() && #[trigger] before[k].node_id@ == id;
                            if k != j {
                                assert((*scored)@[k] == before[k]);
                            }
                            assert((*scored)@[k].node_id@ == before[k].node_id@);
                        } else {
                            assert((*scored)@[j as int].node_id@ == id);
                        }
                    }
                }
            },
            None => {
                let mut dims: Vec<DimensionScore> = Vec::new();
                dims.push(DimensionScore { dimension: dimension.clone(), weight: n.weight });
                let mut reasons: Vec<String> = Vec::new();
                reasons.push(n.reason.clone());
                proof {
                    if total_of(prev, n.node_id@) != 0 {
                        let k = choose|k: int|
                            0 <= k < before.len() && #[trigger] before[k].node_id@ == n.node_id@;
                    }
                    assert(total_of(prev, n.node_id@) == 0);
                }
                scored.push(
                    ScoredNode {
                        node_id: n.node_id.clone(),
                        total_score: score,
                        dimension_scores: dims,
                        reasons,
                    },
                );
                proof {
                    lemma_view_index_none(pv, n.node_id@);
                    assert(dim_views((*scored)@.last().dimension_scores@) =~= seq![(dimension@, n.weight)]);
                    assert((*scored)@.last().reasons@.map_values(|t: String| t@) =~= seq![n.reason@]);
                    assert(score_views((*scored)@) =~= add_hit(pv, dimension@, w, *n));
                    assert forall|a: int, b: int| 0 <= a < b < (*scored)@.len() implies (*scored)@[a].node_id@
                        != (*scored)@[b].node_id@ by {
                        if b < before.len() {
                            assert(before[a].node_id@ != before[b].node_id@);
                        } else {
                            assert(before[a].node_id@ != n.node_id@);
                        }
                    }
                    assert forall|k: int| 0 <= k < (*scored)@.len() implies #[trigger] (*scored)@[k].total_score
                        == total_of(next, (*scored)@[k].node_id@) by {
                        if k < before.len() {
                            assert(before[k].total_score == total_of(prev, before[k].node_id@));
                            assert(before[k].node_id@ != n.node_id@);
                            assert((*scored)@[k] == before[k]);
                        }
                    }
                    if fresh {
                        assert(scored_as((*scored)@, hits@.subrange(0, i + 1), w)) by {
                            assert forall|k: int| 0 <= k < (*scored)@.len() implies (*scored)@[k].node_id@
                                == hits@.subrange(0, i + 1)[k].node_id@ && (*scored)@[k].total_score
                                == weighted(w, hits@.subrange(0, i + 1)[k].weight) by {
                                if k < before.len() {
                                    assert((*scored)@[k] == before[k]);
                                    assert(hits@.subrange(0, i + 1)[k] == hits@.subrange(0, i as int)[k]);
                                }
                            }
                        }
                    }
                    assert forall|id: Seq<char>| total_of(next, id) != 0 implies exists|k: int|
                        0 <= k < (*scored)@.len() && #[trigger] (*scored)@[k].node_id@ == id by {
                        if id != n.node_id@ {
                            assert(total_of(next, id) == total_of(prev, id));
                            let k = choose|k: int|
                                0 <= k < before.len() && #[trigger] before[k].node_id@ == id;
                            assert((*scored)@[k] == before[k]);
                        } else {
                            assert((*scored)@[before.len() as int].node_id@ == id);
                        }
                    }
                }
            },
        }
        i = i + 1;
    }
    assert(hits@.subrange(0, hits@.len() as int) =~= hits@);
    assert(score_views(old(scored)@) == start_views);
}

/// A dimension of positive weight whose graph was at hand.
pub open spec fn dimension_at_hand(
    request: MultiGraphQuery,
    graphs: Seq<Option<&DimensionGraph>>,
    dimension: Seq<char>,
) -> bool {
    exists|k: int|
        0 <= k < request.dimension_weights@.len() && request.dimension_weights@[k].weight > 0
            && graphs[k] is Some && #[trigger] request.dimension_weights@[k].dimension@ == dimension
}

pub open spec fn contribution_entries(cs: Seq<DimensionContribution>) -> Seq<(Seq<char>, u64)> {
    cs.map_values(|c: DimensionContribution| (c.node_id@, c.weighted_score))
}

/// Every weighted score the dimensions gave, dimension by dimension.
pub open spec fn all_entries(ds: Seq<DimensionContributions>) -> Seq<(Seq<char>, u64)>
    decreases ds.len(),
{
    if ds.len() == 0 {
        Seq::empty()
    } else {
        all_entries(ds.drop_last()) + contribution_entries(ds.last().entries@)
    }
}

fn clone_texts(v: &Vec<String>) -> (r: Vec<String>)
    ensures
        r@ == v@,
{
    let mut out: Vec<String> = Vec::new();
    let mut i: usize = 0;
    while i < v.len()
        invariant
            i <= v@.len(),
            out@ == v@.subrange(0, i as int),
        decreases v@.len() - i,
    {
        out.push(v[i].clone());
        assert(out@ =~= v@.subrange(0, i + 1));
        i = i + 1;
    }
    assert(v@.subrange(0, v@.len() as int) =~= v@);
    out
}

/// `s` ordered by total score, highest first, equal scores in their order.
fn sort_by_total(s: Vec<ScoredNode>) -> (r: Vec<ScoredNode>)
    ensures
        r@.to_multiset() == s@.to_multiset(),
        by_total_desc(r@),
        by_total_desc(s@) ==> r@ == s@,
        score_views(r@) == ranked_totals(score_views(s@)),
{
    broadcast use vstd::seq_lib::group_to_multiset_ensures;

    let mut out: Vec<ScoredNode> = Vec::new();
    let mut rest = s;
    let ghost all = rest@;
    let ghost mut used: int = 0;
    proof {
        assert(out@.to_multiset() =~= vstd::multiset::Multiset::<ScoredNode>::empty());
    }
    while rest.len() > 0
        invariant
            out@.to_multiset().add(rest@.to_multiset()) == all.to_multiset(),
            by_total_desc(out@),
            0 <= used <= all.len(),
            rest@ == all.subrange(used, all.len() as int),
            by_total_desc(all) ==> out@ == all.subrange(0, used),
            score_views(out@) == ranked_totals(score_views(all.subrange(0, used))),
        decreases rest@.len(),
    {
        let ghost rest0 = rest@;
        let m = rest.remove(0);
        let mut pos: usize = 0;
        while pos < out.len() && out[pos].total_score >= m.total_score
            invariant
                pos <= out@.len(),
                forall|k: int| 0 <= k < pos ==> out@[k].total_score >= m.total_score,
                total_slot(score_views(out@), m.total_score, 0) == total_slot(
                    score_views(out@),
                    m.total_score,
                    pos as int,
                ),
            decreases out@.len() - pos,
        {
            pos = pos + 1;
        }
        proof {
            assert(m == all[used]);
            let prev = score_views(all.subrange(0, used));
            assert(score_views(all.subrange(0, used + 1)).drop_last() =~= prev);
            assert(score_views(all.subrange(0, used + 1)).last() == score_view(m));
            assert(total_slot(score_views(out@), m.total_score, pos as int) == pos);
            if by_total_desc(all) {
                assert(m == all[used]);
                if pos < out@.len() {
                    assert(out@[pos as int] == all[pos as int]);
                    assert(all[pos as int].total_score >= all[used].total_score);
                }
                assert(pos == out@.len());
            }
        }
        let ghost before = out@;
        let ghost mm = m;
        out.insert(pos, m);
        proof {
            vstd::seq_lib::to_multiset_insert(before, pos as int, mm);
            vstd::seq_lib::to_multiset_remove(rest0, 0);
            assert(rest0.contains(mm));
            vstd::seq_lib::to_multiset_contains(rest0, mm);
            assert(out@.to_multiset().add(rest@.to_multiset()) =~= before.to_multiset().add(
                rest0.to_multiset(),
            ));
            assert forall|a: int, b: int| 0 <= a < b < out@.len() implies out@[a].total_score
                >= out@[b].total_score by {
                if b < pos {
                    assert(out@[a] == before[a] && out@[b] == before[b]);
                } else if b == pos {
                    assert(out@[a] == before[a]);
                } else if a < pos {
                    assert(out@[a] == before[a] && out@[b] == before[b - 1]);
                    if pos < before.len() {
                        assert(before[pos as int].total_score < mm.total_score);
                    }
                } else if a == pos {
                    assert(out@[b] == before[b - 1]);
                    assert(before[pos as int].total_score < mm.total_score);
                } else {
                    assert(out@[a] == before[a - 1] && out@[b] == before[b - 1]);
                }
            }
            assert(score_views(out@) =~= score_views(before).insert(pos as int, score_view(mm)));
            if by_total_desc(all) {
                assert(out@ =~= all.subrange(0, used + 1));
            }
            assert(rest@ =~= all.subrange(used + 1, all.len() as int));
            used = used + 1;
        }
    }
    proof {
        assert(all.subrange(0, used) =~= all);
        if by_total_desc(all) {
            assert(out@ =~= all);
        }
        assert(rest@.to_multiset() =~= vstd::multiset::Multiset::<ScoredNode>::empty());
        assert(out@.to_multiset() =~= out@.to_multiset().add(rest@.to_multiset()));
    }
    out
}

/// The request names one dimension, of positive weight, and its graph is at hand.
pub open spec fn single_dimension(request: MultiGraphQuery, graphs: Seq<Option<&DimensionGraph>>) -> bool {
    &&& request.dimension_weights@.len() == 1
    &&& request.dimension_weights@[0].weight > 0
    &&& graphs.len() == 1
    &&& graphs[0] is Some
}

/// The single-graph query with the request's anchors, in both directions,
/// with no minimum weight.
pub open spec fn plain_query(request: MultiGraphQuery, limit: usize) -> SingleGraphQuery {
    SingleGraphQuery {
        anchors: request.anchors,
        limit,
        min_weight: 0,
        direction: QueryDirection::Both,
    }
}

proof fn lemma_weighted_monotone(w: u32, a: u32, b: u32)
    requires
        a >= b,
    ensures
        weighted(w, a) >= weighted(w, b),
{
    let x = w as int * a as int;
    let y = w as int * b as int;
    assert(x >= y) by (nonlinear_arith)
        requires
            a >= b,
            x == w as int * a as int,
            y == w as int * b as int,
            w >= 0,
    ;
    vstd::arithmetic::div_mod::lemma_div_is_ordered(y, x, SCORE_ONE as int);
    assert(0 <= y);
    assert(x <= 0xffff_ffff * 0xffff_ffffint) by (nonlinear_arith)
        requires
            x == w as int * a as int,
            0 <= w <= 0xffff_ffff,
            0 <= a <= 0xffff_ffff,
    ;
    vstd::arithmetic::div_mod::lemma_div_is_ordered(x, 0xffff_ffff * 0xffff_ffffint, SCORE_ONE as int);
    vstd::arithmetic::div_mod::lemma_div_pos_is_pos(y, SCORE_ONE as int);
}

/// Query every dimension of positive weight whose graph is at hand (the
/// graph at the same index as its weight), weight each related node's edge
/// weight by the dimension's weight and add them up per node; keep the nodes
/// that reach `min_score`, highest total first, at most `limit`. Each
/// dimension's hits are listed among the contributions.
pub fn query_multi(request: &MultiGraphQuery, graphs: &Vec<Option<&DimensionGraph>>) -> (r:
    MultiGraphResult)
    requires
        graphs@.len() == request.dimension_weights@.len(),
    ensures
        r.contributions@.len() <= request.dimension_weights@.len(),
        by_total_desc(r.nodes@),
        r.nodes@.len() <= request.limit,
        forall|i: int|
            0 <= i < r.nodes@.len() ==> #[trigger] r.nodes@[i].total_score >= request.min_score
                && r.nodes@[i].total_score == total_of(
                all_entries(r.contributions@),
                r.nodes@[i].node_id@,
            ),
        forall|i: int|
            0 <= i < r.contributions@.len() ==> dimension_at_hand(
                *request,
                graphs@,
                r.contributions@[i].dimension@,
            ),
        score_views(r.nodes@) == take_views(
            ranked_totals(
                scores_upto(*request, graphs@, request.dimension_weights@.len() as int),
            ).filter(reaches(request.min_score)),
            request.limit as int,
        ),
        contributions_view(r.contributions@) == contributions_upto(
            *request,
            graphs@,
            request.dimension_weights@.len() as int,
        ),
        single_dimension(*request, graphs@) && request.min_score == 0 ==> scored_as(
            r.nodes@,
            take(
                ranked(candidates(graphs@[0]->0.edges@, plain_query(*request, request.limit))),
                request.limit as int,
            ),
            request.dimension_weights@[0].weight,
        ),
{
    let mut scored: Vec<ScoredNode> = Vec::new();
    let mut contributions: Vec<DimensionContributions> = Vec::new();
    let inner_limit: usize = if request.limit > usize::MAX / 2 {
        usize::MAX
    } else {
        request.limit * 2
    };
    let ghost single = single_dimension(*request, graphs@);
    let ghost first_hits = if single {
        take(
            ranked(candidates(graphs@[0]->0.edges@, plain_query(*request, inner_limit))),
            inner_limit as int,
        )
    } else {
        Seq::empty()
    };
    let mut d: usize = 0;
    while d < request.dimension_weights.len()
        invariant
            inner_limit == inner_of(request.limit),
            score_views(scored@) == scores_upto(*request, graphs@, d as int),
            contributions_view(contributions@) == contributions_upto(*request, graphs@, d as int),
            single == single_dimension(*request, graphs@),
            single ==> first_hits == take(
                ranked(candidates(graphs@[0]->0.edges@, plain_query(*request, inner_limit))),
                inner_limit as int,
            ),
            d == 0 ==> scored@.len() == 0,
            single && d == 1 ==> scored_as(
                scored@,
                first_hits,
                request.dimension_weights@[0].weight,
            ) && by_weight_desc(first_hits),
            d <= request.dimension_weights@.len(),
            graphs@.len() == request.dimension_weights@.len(),
            contributions@.len() <= d,
            forall|a: int, b: int|
                0 <= a < b < scored@.len() ==> scored@[a].node_id@ != scored@[b].node_id@,
            forall|k: int|
                0 <= k < scored@.len() ==> #[trigger] scored@[k].total_score == total_of(
                    all_entries(contributions@),
                    scored@[k].node_id@,
                ),
            forall|id: Seq<char>|
                total_of(all_entries(contributions@), id) != 0 ==> exists|k: int|
                    0 <= k < scored@.len() && #[trigger] scored@[k].node_id@ == id,
            forall|i: int|
                0 <= i < contributions@.len() ==> dimension_at_hand(
                    *request,
                    graphs@,
                    #[trigger] contributions@[i].dimension@,
                ),
        decreases request.dimension_weights@.len() - d,
    {
        let dw = &request.dimension_weights[d];
        if dw.weight > 0 {
            match graphs[d] {
                Some(graph) => {
                    let single_q = SingleGraphQuery {
                        anchors: clone_texts(&request.anchors),
                        limit: inner_limit,
                        min_weight: 0,
                        direction: QueryDirection::Both,
                    };
                    let result = graph.query(&single_q);
                    proof {
                        lemma_query_distinct(graph.edges@, single_q);
                        assert(candidates(graph.edges@, single_q) == candidates(
                            graphs@[d as int]->0.edges@,
                            plain_query(*request, inner_limit),
                        ));
                        assert(result.nodes@ == dim_hits(*request, graphs@, d as int));
                        if single_dimension(*request, graphs@) {
                            assert(candidates(graph.edges@, single_q) == candidates(
                                graphs@[0]->0.edges@,
                                plain_query(*request, inner_limit),
                            ));
                        }
                    }
                    let mut entries: Vec<DimensionContribution> = Vec::new();
                    let mut k: usize = 0;
                    while k < result.nodes.len()
                        invariant
                            k <= result.nodes@.len(),
                            entries@.len() == k,
                            forall|j: int|
                                0 <= j < k ==> #[trigger] contribution_view(entries@[j])
                                    == hit_contribution(dw.weight, result.nodes@[j]),
                            forall|j: int|
                                0 <= j < k ==> #[trigger] contribution_entries(entries@)[j] == (
                                    result.nodes@[j].node_id@,
                                    weighted(dw.weight, result.nodes@[j].weight),
                                ),
                        decreases result.nodes@.len() - k,
                    {
                        let n = &result.nodes[k];
                        let score = weigh(dw.weight, n.weight);
                        let ghost before_entries = entries@;
                        entries.push(
                            DimensionContribution {
                                node_id: n.node_id.clone(),
                                raw_weight: n.weight,
                                weighted_score: score,
                                reason: n.reason.clone(),
                            },
                        );
                        proof {
                            assert forall|j: int| 0 <= j < k + 1 implies #[trigger] contribution_entries(
                                entries@,
                            )[j] == (
                                result.nodes@[j].node_id@,
                                weighted(dw.weight, result.nodes@[j].weight),
                            ) by {
                                if j < k {
                                    assert(entries@[j] == before_entries[j]);
                                    assert(contribution_view(before_entries[j]) == hit_contribution(
                                        dw.weight,
                                        result.nodes@[j],
                                    ));
                                    assert(contribution_entries(before_entries)[j] == (
                                        result.nodes@[j].node_id@,
                                        weighted(dw.weight, result.nodes@[j].weight),
                                    ));
                                }
                            }
                        }
                        proof {
                            assert forall|j: int| 0 <= j < k + 1 implies #[trigger] contribution_view(
                                entries@[j],
                            ) == hit_contribution(dw.weight, result.nodes@[j]) by {
                                if j < k {
                                    assert(entries@[j] == before_entries[j]);
                                }
                            }
                        }
                        k = k + 1;
                    }
                    assert(contribution_entries(entries@) =~= scored_hits(dw.weight, result.nodes@));
                    assert(entries@.map_values(|e: DimensionContribution| contribution_view(e))
                        =~= result.nodes@.map_values(|h: RelatedNode| hit_contribution(dw.weight, h)));
                    accumulate(
                        &mut scored,
                        &dw.dimension,
                        dw.weight,
                        &result.nodes,
                        Ghost(all_entries(contributions@)),
                    );
                    let ghost before = contributions@;
                    contributions.push(
                        DimensionContributions { dimension: dw.dimension.clone(), entries },
                    );
                    proof {
                        assert(contributions_view(contributions@) =~= contributions_view(before).push(
                            contributions_view(contributions@).last(),
                        ));
                        assert(active(*request, graphs@, d as int));
                        assert(contributions@.drop_last() =~= before);
                        assert(all_entries(contributions@) == all_entries(before) + scored_hits(
                            dw.weight,
                            result.nodes@,
                        ));
                        assert(dimension_at_hand(*request, graphs@, dw.dimension@));
                        assert forall|i: int| 0 <= i < contributions@.len() implies dimension_at_hand(
                            *request,
                            graphs@,
                            #[trigger] contributions@[i].dimension@,
                        ) by {
                            if i < before.len() {
                                assert(contributions@[i] == before[i]);
                            }
                        }
                    }
                },
                None => {},
            }
        }
        d = d + 1;
    }
    let ghost entries_all = all_entries(contributions@);
    proof {
        if single {
            let w = request.dimension_weights@[0].weight;
            assert forall|a: int, b: int| 0 <= a < b < scored@.len() implies scored@[a].total_score
                >= scored@[b].total_score by {
                assert(scored@[a].total_score == weighted(w, first_hits[a].weight));
                assert(scored@[b].total_score == weighted(w, first_hits[b].weight));
                lemma_weighted_monotone(w, first_hits[a].weight, first_hits[b].weight);
            }
        }
    }
    let ghost scored_view = scored@;
    let sorted = sort_by_total(scored);
    let mut nodes: Vec<ScoredNode> = Vec::new();
    let mut rest = sorted;
    let ghost sorted_view = rest@;
    proof {
        broadcast use vstd::seq_lib::group_to_multiset_ensures;

        assert forall|k: int| 0 <= k < sorted_view.len() implies #[trigger] sorted_view[k].total_score
            == total_of(entries_all, sorted_view[k].node_id@) by {
            assert(sorted_view.contains(sorted_view[k]));
            assert(sorted_view.to_multiset().count(sorted_view[k]) > 0);
            assert(scored@.contains(sorted_view[k]));
            let j = choose|j: int| 0 <= j < scored@.len() && scored@[j] == sorted_view[k];
            assert(scored@[j].total_score == total_of(entries_all, scored@[j].node_id@));
        }
    }
    let total_len = rest.len();
    let mut i: usize = 0;
    while rest.len() > 0 && nodes.len() < request.limit
        invariant
            total_len == sorted_view.len(),
            i <= sorted_view.len(),
            rest@ == sorted_view.subrange(i as int, sorted_view.len() as int),
            nodes@.len() <= request.limit,
            by_total_desc(sorted_view),
            forall|k: int|
                0 <= k < sorted_view.len() ==> #[trigger] sorted_view[k].total_score == total_of(
                    entries_all,
                    sorted_view[k].node_id@,
                ),
            forall|a: int|
                0 <= a < nodes@.len() ==> exists|b: int|
                    0 <= b < i && sorted_view[b] == #[trigger] nodes@[a],
            by_total_desc(nodes@),
            forall|a: int| 0 <= a < nodes@.len() ==> #[trigger] nodes@[a].total_score >= request.min_score,
            nodes@.len() > 0 ==> exists|b: int| 0 <= b < i && sorted_view[b] == nodes@.last(),
            request.min_score == 0 ==> nodes@ == sorted_view.subrange(0, i as int),
            score_views(nodes@) == score_views(sorted_view).subrange(0, i as int).filter(
                reaches(request.min_score),
            ),
        decreases rest@.len(),
    {
        let ghost before = nodes@;
        assert(rest@.len() == sorted_view.len() - i);
        let x = rest.remove(0);
        proof {
            let vs = score_views(sorted_view);
            assert(vs.subrange(0, i + 1) =~= vs.subrange(0, i as int).push(vs[i as int]));
            vs.subrange(0, i as int).lemma_filter_push(vs[i as int], reaches(request.min_score));
            assert(x == sorted_view[i as int]);
            assert(rest@ =~= sorted_view.subrange(i + 1, sorted_view.len() as int));
        }
        if x.total_score >= request.min_score {
            let ghost pushed = x;
            nodes.push(x);
            proof {
                assert(score_views(nodes@) =~= score_views(before).push(score_view(pushed)));
                if request.min_score == 0 {
                    assert(nodes@ =~= sorted_view.subrange(0, i + 1));
                }
            }
            proof {
                if before.len() > 0 {
                    let b = choose|b: int| 0 <= b < i && sorted_view[b] == before.last();
                    assert(sorted_view[b].total_score >= sorted_view[i as int].total_score);
                }
                assert forall|a: int| 0 <= a < nodes@.len() implies exists|b: int|
                    0 <= b < i + 1 && sorted_view[b] == #[trigger] nodes@[a] by {
                    if a < before.len() {
                        assert(nodes@[a] == before[a]);
                        let b = choose|b: int| 0 <= b < i && sorted_view[b] == before[a];
                    } else {
                        assert(sorted_view[i as int] == nodes@[a]);
                    }
                }
                assert(sorted_view[i as int] == nodes@.last());
                assert forall|a: int, c: int| 0 <= a < c < nodes@.len() implies nodes@[a].total_score
                    >= nodes@[c].total_score by {
                    if c < before.len() {
                        assert(nodes@[a] == before[a] && nodes@[c] == before[c]);
                    } else {
                        assert(nodes@[a] == before[a]);
                        let b0 = choose|b: int| 0 <= b < i && sorted_view[b] == before.last();
                        assert(before[a].total_score >= before.last().total_score);
                    }
                }
            }
        }
        i = i + 1;
    }
    proof {
        let vs = score_views(sorted_view);
        let goal = vs.filter(reaches(request.min_score));
        assert(vs =~= vs.subrange(0, i as int) + vs.subrange(i as int, vs.len() as int));
        Seq::filter_distributes_over_add(
            vs.subrange(0, i as int),
            vs.subrange(i as int, vs.len() as int),
            reaches(request.min_score),
        );
        if i < sorted_view.len() {
            assert(nodes@.len() == request.limit);
            assert(goal.subrange(0, request.limit as int) =~= score_views(nodes@));
        } else {
            assert(vs.subrange(0, i as int) =~= vs);
        }
        assert(score_views(nodes@) == take_views(goal, request.limit as int));
        if single && request.min_score == 0 {
            let w = request.dimension_weights@[0].weight;
            let lim = request.limit as int;
            assert(sorted_view == scored_view);
            let c = candidates(graphs@[0]->0.edges@, plain_query(*request, request.limit));
            assert(c == candidates(graphs@[0]->0.edges@, plain_query(*request, inner_limit)));
            let goal = take(ranked(c), lim);
            assert(inner_limit >= request.limit);
            assert(i as int == if lim < sorted_view.len() { lim } else { sorted_view.len() as int });
            assert(goal.len() == nodes@.len());
            assert forall|k: int| 0 <= k < nodes@.len() implies #[trigger] nodes@[k].node_id@
                == goal[k].node_id@ && nodes@[k].total_score == weighted(w, goal[k].weight) by {
                assert(nodes@[k] == scored_view[k]);
                assert(goal[k] == first_hits[k]);
            }
        }
        assert forall|a: int| 0 <= a < nodes@.len() implies #[trigger] nodes@[a].total_score
            >= request.min_score && nodes@[a].total_score == total_of(
            all_entries(contributions@),
            nodes@[a].node_id@,
        ) by {
            let b = choose|b: int| 0 <= b < i && sorted_view[b] == nodes@[a];
        }
    }
    MultiGraphResult { nodes, contributions }
}

} // verus!
