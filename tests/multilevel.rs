use kahypar::{Context, Hypergraph, Metric, Status, UNFIXED};

fn ring(n: u32) -> Vec<Vec<u32>> {
    (0..n).map(|v| vec![v, (v + 1) % n]).collect()
}

#[test]
fn coarsening_shrinks_and_keeps_fixed_vertices() {
    let mut fixed = vec![UNFIXED; 400];
    fixed[10] = 1;
    fixed[11] = 0;
    let hg = Hypergraph::from_edges(2, 400, &ring(400)).fixed_vertices(&fixed).build().unwrap();
    let c = hg.coarsen().unwrap();
    assert!(c.coarse.vertex_count() < 400);
    assert_eq!(c.map.len(), 400);
    assert!(c.map.iter().all(|&x| x < c.coarse.vertex_count()));
    assert_ne!(c.map[10], c.map[11]);
    assert_eq!(c.coarse.fixed_block(c.map[10]), 1);
    assert_eq!(c.coarse.fixed_block(c.map[11]), 0);
    assert_eq!(c.coarse.total_vertex_weight(), 400);
    assert!(c.coarse.edge_count() < 400);
    assert!(c.coarse.edge_count() >= 200);
}

#[test]
fn large_ring_is_partitioned_through_the_hierarchy() {
    let hg = Hypergraph::from_edges(2, 400, &ring(400)).build().unwrap();
    let s = hg.partition(&Context::new(Metric::Km1, 4), 3, 100).unwrap();
    assert_eq!(s.assignment.len(), 400);
    assert!(s.assignment.iter().all(|&b| b == 0 || b == 1));
    assert_eq!(s.status, Status::Balanced);
    assert_eq!(s.objective, hg.objective(&s.assignment, Metric::Km1));
    assert!(s.objective >= 2);
    let direct = hg.multilevel_assignment(Metric::Km1, 3, 100, 4, 0);
    assert!(direct.iter().all(|&b| b == 0 || b == 1));
}

#[test]
fn coarse_weights_and_edges_follow_the_clusters() {
    // 0-1 share a heavy edge, 2-3 share a heavy edge, one light edge joins them
    let edges = vec![vec![0u32, 1], vec![2, 3], vec![1, 2]];
    let hg = Hypergraph::from_edges(2, 4, &edges)
        .edge_weights(&[10, 10, 1])
        .vertex_weights(&[1, 2, 3, 4])
        .build()
        .unwrap();
    let c = hg.coarsen().unwrap();
    assert_eq!(c.coarse.vertex_count(), 2);
    assert_eq!(c.map, vec![0, 0, 1, 1]);
    assert_eq!(c.coarse.vertex_weight(0), 3);
    assert_eq!(c.coarse.vertex_weight(1), 7);
    assert_eq!(c.coarse.edge_count(), 1);
    assert_eq!(c.coarse.edge_pins(0), &[0, 1]);
    assert_eq!(c.coarse.edge_weight(0), 1);
}
