use memo_chater::graph::{
    dimension_of_file, DimensionGraph, Edge, GraphScope, MemoryRef, Node, NodeFeatures,
};
use memo_chater::locator::GraphLocator;
use memo_chater::multi::{query_multi, DimensionWeight, MultiGraphQuery};
use memo_chater::query::{QueryDirection, SingleGraphQuery};
use memo_chater::temporal::TemporalLink;

fn node(id: &str, ts: Option<i64>) -> Node {
    Node {
        id: id.to_string(),
        memory_ref: MemoryRef::ShortTerm { file_path: "f".to_string() },
        created_at: 0,
        features: NodeFeatures { timestamp: ts, entities: vec![], emotion: None, topics: vec![] },
    }
}

fn edge(s: &str, t: &str, w: u32, reason: &str) -> Edge {
    Edge {
        source: s.to_string(),
        target: t.to_string(),
        weight: w,
        reason: reason.to_string(),
        created_at: 0,
        auto_generated: true,
    }
}

fn link(w: u32) -> TemporalLink {
    TemporalLink { weight: w, reason: "时间距离".to_string() }
}

fn has_edge(g: &DimensionGraph, s: &str, t: &str) -> bool {
    g.edge_between(s, t).is_some()
}

#[test]
fn first_temporal_node_gets_no_edges() {
    let mut g = DimensionGraph::new("temporal");
    let added = g.insert_temporal_node(node("a", Some(10)), link(1), link(1)).unwrap();
    assert_eq!(added, 0);
    assert_eq!(g.node_count(), 1);
    assert_eq!(g.edge_count(), 0);
}

#[test]
fn temporal_chain_insertion() {
    let mut g = DimensionGraph::new("temporal");
    g.insert_temporal_node(node("t10", Some(10_000)), link(900_000), link(900_000)).unwrap();
    g.insert_temporal_node(node("t30", Some(30_000)), link(800_000), link(800_000)).unwrap();
    assert!(has_edge(&g, "t10", "t30"));
    let (p, s) = g.temporal_neighbors(20_000);
    assert_eq!(p, Some(0));
    assert_eq!(s, Some(1));
    let added = g.insert_temporal_node(node("t20", Some(20_000)), link(950_000), link(940_000)).unwrap();
    assert_eq!(added, 2);
    assert!(has_edge(&g, "t10", "t20"));
    assert!(has_edge(&g, "t20", "t30"));
    assert!(!has_edge(&g, "t10", "t30"));
    assert_eq!(g.edge_count(), 2);
    assert_eq!(g.edge_between("t10", "t20").unwrap().weight, 950_000);
    let before: Vec<&str> = g.temporal_before("t30", 5).iter().map(|n| n.id.as_str()).collect();
    assert_eq!(before, vec!["t20", "t10"]);
    let after: Vec<&str> = g.temporal_after("t10", 1).iter().map(|n| n.id.as_str()).collect();
    assert_eq!(after, vec!["t20"]);
}

#[test]
fn temporal_insert_needs_timestamp_and_new_id() {
    let mut g = DimensionGraph::new("temporal");
    assert!(g.insert_temporal_node(node("x", None), link(1), link(1)).is_err());
    g.insert_temporal_node(node("x", Some(5)), link(1), link(1)).unwrap();
    assert!(g.insert_temporal_node(node("x", Some(6)), link(1), link(1)).is_err());
    assert_eq!(g.node_count(), 1);
}

#[test]
fn edges_must_join_nodes_and_removal_cascades() {
    let mut g = DimensionGraph::new("entity");
    g.add_node(node("a", None)).unwrap();
    g.add_node(node("b", None)).unwrap();
    assert!(g.add_node(node("a", None)).is_err());
    assert!(g.add_edge(edge("a", "zzz", 1, "r")).is_err());
    g.add_edge(edge("a", "b", 500_000, "r")).unwrap();
    g.add_edge(edge("b", "a", 400_000, "r")).unwrap();
    assert_eq!(g.edges_from("a").len(), 1);
    assert_eq!(g.edges_to("a").len(), 1);
    assert_eq!(g.forward_neighbors("a"), vec![("b", 500_000)]);
    assert_eq!(g.backward_neighbors("a"), vec![("b", 400_000)]);
    g.rebuild_caches();
    assert!(g.adjacency.is_some());
    assert_eq!(g.forward_neighbors("a"), vec![("b", 500_000)]);
    assert_eq!(g.backward_neighbors("b"), vec![("a", 500_000)]);
    let removed = g.remove_node("a").unwrap();
    assert_eq!(removed.id, "a");
    assert_eq!(g.edge_count(), 0);
    assert!(!g.has_node("a"));
    assert!(g.remove_node("a").is_none());
    assert_eq!(g.metadata.node_count, 1);
}

#[test]
fn single_query_dedups_and_ranks() {
    let mut g = DimensionGraph::new("entity");
    for id in ["x", "y", "z", "w"] {
        g.add_node(node(id, None)).unwrap();
    }
    g.add_edge(edge("x", "y", 300_000, "weak")).unwrap();
    g.add_edge(edge("z", "x", 700_000, "back")).unwrap();
    g.add_edge(edge("x", "y", 600_000, "strong")).unwrap();
    g.add_edge(edge("x", "w", 100_000, "tiny")).unwrap();
    g.add_edge(edge("x", "x", 900_000, "self")).unwrap();
    let q = SingleGraphQuery {
        anchors: vec!["x".to_string()],
        limit: 10,
        min_weight: 200_000,
        direction: QueryDirection::Both,
    };
    let r = g.query(&q);
    let got: Vec<(&str, u32)> = r.nodes.iter().map(|n| (n.node_id.as_str(), n.weight)).collect();
    assert_eq!(got, vec![("z", 700_000), ("y", 600_000)]);
    assert_eq!(r.nodes[1].reason, "strong");
    assert_eq!(r.nodes[0].direction, QueryDirection::Backward);
    let forward = SingleGraphQuery { direction: QueryDirection::Forward, limit: 1, ..q };
    let r2 = g.query(&forward);
    assert_eq!(r2.nodes.len(), 1);
    assert_eq!(r2.nodes[0].node_id, "y");
}

#[test]
fn query_over_empty_graph_is_empty() {
    let g = DimensionGraph::new("entity");
    let q = SingleGraphQuery {
        anchors: vec!["x".to_string()],
        limit: 10,
        min_weight: 0,
        direction: QueryDirection::Both,
    };
    assert!(g.query(&q).nodes.is_empty());
}

fn pair_graph(dim: &str, w: u32, reason: &str) -> DimensionGraph {
    let mut g = DimensionGraph::new(dim);
    g.add_node(node("X", None)).unwrap();
    g.add_node(node("Y", None)).unwrap();
    g.add_edge(edge("X", "Y", w, reason)).unwrap();
    g
}

#[test]
fn multi_dimension_query_sums_weighted_scores() {
    let temporal = pair_graph("temporal", 800_000, "t");
    let entity = pair_graph("entity", 400_000, "shared e");
    let request = MultiGraphQuery {
        anchors: vec!["X".to_string()],
        dimension_weights: vec![
            DimensionWeight { dimension: "temporal".to_string(), weight: 300_000 },
            DimensionWeight { dimension: "entity".to_string(), weight: 700_000 },
        ],
        limit: 10,
        min_score: 0,
    };
    let r = query_multi(&request, &vec![Some(&temporal), Some(&entity)]);
    assert_eq!(r.nodes.len(), 1);
    let n = &r.nodes[0];
    assert_eq!(n.node_id, "Y");
    assert_eq!(n.total_score, 520_000);
    assert_eq!(n.dimension_scores.len(), 2);
    assert_eq!(n.dimension_scores[0].dimension, "temporal");
    assert_eq!(n.dimension_scores[0].weight, 800_000);
    assert_eq!(n.dimension_scores[1].weight, 400_000);
    assert_eq!(n.reasons, vec!["t".to_string(), "shared e".to_string()]);
    assert_eq!(r.contributions.len(), 2);
    assert_eq!(r.contributions[1].entries[0].weighted_score, 280_000);
}

#[test]
fn multi_query_skips_absent_and_zero_weight_dimensions() {
    let temporal = pair_graph("temporal", 800_000, "t");
    let request = MultiGraphQuery {
        anchors: vec!["X".to_string()],
        dimension_weights: vec![
            DimensionWeight { dimension: "temporal".to_string(), weight: 0 },
            DimensionWeight { dimension: "entity".to_string(), weight: 500_000 },
        ],
        limit: 10,
        min_score: 0,
    };
    let r = query_multi(&request, &vec![Some(&temporal), None]);
    assert!(r.nodes.is_empty());
    assert!(r.contributions.is_empty());
}

#[test]
fn multi_query_single_dimension_matches_single_query() {
    let mut g = DimensionGraph::new("entity");
    for id in ["a", "b", "c", "d"] {
        g.add_node(node(id, None)).unwrap();
    }
    g.add_edge(edge("a", "b", 200_000, "1")).unwrap();
    g.add_edge(edge("a", "c", 900_000, "2")).unwrap();
    g.add_edge(edge("d", "a", 500_000, "3")).unwrap();
    let single = g.query(&SingleGraphQuery {
        anchors: vec!["a".to_string()],
        limit: 2,
        min_weight: 0,
        direction: QueryDirection::Both,
    });
    let multi = query_multi(
        &MultiGraphQuery {
            anchors: vec!["a".to_string()],
            dimension_weights: vec![DimensionWeight { dimension: "entity".to_string(), weight: 500_000 }],
            limit: 2,
            min_score: 0,
        },
        &vec![Some(&g)],
    );
    let a: Vec<&str> = single.nodes.iter().map(|n| n.node_id.as_str()).collect();
    let b: Vec<&str> = multi.nodes.iter().map(|n| n.node_id.as_str()).collect();
    assert_eq!(a, b);
    for (s, m) in single.nodes.iter().zip(multi.nodes.iter()) {
        assert_eq!(m.total_score, s.weight as u64 * 500_000 / 1_000_000);
    }
}

#[test]
fn scope_paths_and_keys() {
    let s = GraphScope::ShortTerm { assistant_id: "A".to_string(), topic_id: "T".to_string() };
    assert_eq!(s.storage_dir("/data"), "/data/assistants/A/topics/T/graphs");
    assert_eq!(s.cache_key("temporal"), "short:A:T:temporal");
    let l = GraphScope::LongTerm { assistant_id: "A".to_string() };
    assert_eq!(l.storage_dir("/d"), "/d/assistants/A/long_term_graphs");
    assert_eq!(l.cache_key("e"), "long:A:e");
    assert_eq!(GraphScope::Global.storage_dir("/d"), "/d/global_graphs");
    assert_eq!(GraphScope::Global.cache_key("e"), "global:e");
}

#[test]
fn scope_key_prefixes_and_file_names() {
    let s = GraphScope::ShortTerm { assistant_id: "A".to_string(), topic_id: "T".to_string() };
    assert_eq!(s.key_prefix(), "short:A:T:");
    assert!(s.owns_key(&s.cache_key("temporal")));
    assert!(!s.owns_key("long:A:temporal"));
    assert!(GraphScope::Global.owns_key("global:x"));
    assert_eq!(dimension_of_file("temporal.json").as_deref(), Some("temporal"));
    assert_eq!(dimension_of_file(".json"), None);
    assert_eq!(dimension_of_file("notes.txt"), None);
}

#[test]
fn locator_caches_graphs_per_scope() {
    let mut loc = GraphLocator::new("/data".to_string());
    loc.register_processor("temporal");
    assert!(loc.processor("temporal"));
    assert!(!loc.processor("entity"));
    let a = GraphScope::ShortTerm { assistant_id: "A".to_string(), topic_id: "T".to_string() };
    let b = GraphScope::LongTerm { assistant_id: "A".to_string() };
    let i = loc.get(&a, "temporal", None);
    assert_eq!(loc.cache[i].key, "short:A:T:temporal");
    assert_eq!(
        loc.cache[i].graph.storage_path.as_deref(),
        Some("/data/assistants/A/topics/T/graphs/temporal.json")
    );
    assert_eq!(loc.get(&a, "temporal", None), i);
    let j = loc.get(&b, "temporal", Some(pair_graph("temporal", 1, "r")));
    assert_eq!(loc.cache[j].graph.node_count(), 2);
    loc.get(&a, "entity", None);
    assert_eq!(loc.to_flush(&a), vec![0, 2]);
    loc.delete_all(&a);
    assert_eq!(loc.cache.len(), 1);
    assert_eq!(loc.cache[0].key, "long:A:temporal");
    loc.delete(&b, "temporal");
    assert!(loc.cache.is_empty());
    assert_eq!(loc.cached(&b, "temporal"), None);
}
