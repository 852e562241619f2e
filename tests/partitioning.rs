use kahypar::{Context, Hypergraph, Metric, PartitionError, Status, UNFIXED};

const FLAT: [u32; 12] = [0, 2, 0, 1, 3, 4, 3, 4, 6, 2, 5, 6];
const OFFSETS: [u64; 5] = [0, 2, 6, 9, 12];
const WEIGHTS: [i32; 4] = [1, 1000, 1, 1000];

fn example() -> Hypergraph {
    Hypergraph::from_raw(2, 7, &FLAT, &OFFSETS)
        .edge_weights(&WEIGHTS)
        .build()
        .unwrap()
}

fn block_weights_within(hg: &Hypergraph, part: &[i32], num: u64, den: u64) -> bool {
    let k = hg.block_count() as u64;
    let total = hg.total_vertex_weight();
    let share = (total + k - 1) / k;
    let ev = hg.evaluate(part, Metric::Km1).unwrap();
    ev.block_weights.iter().all(|&w| w * den <= (den + num) * share)
}

#[test]
fn seven_vertex_example_keeps_heavy_edges_whole() {
    let hg = example();
    let ctx = Context::new(Metric::Km1, 10);
    let s = hg.partition(&ctx, 3, 100).unwrap();
    assert_eq!(s.assignment.len(), 7);
    assert!(s.assignment.iter().all(|&b| b == 0 || b == 1));
    assert_eq!(s.status, Status::Balanced);
    let a = &s.assignment;
    assert!(a[0] == a[1] && a[1] == a[3] && a[3] == a[4]);
    assert!(a[2] == a[5] && a[5] == a[6]);
    assert_eq!(s.objective, 2);
    let zeros = a.iter().filter(|&&b| b == 0).count();
    assert!(zeros == 3 || zeros == 4);
}

#[test]
fn single_edge_over_all_vertices_is_cut() {
    let edges = vec![vec![0u32, 1, 2, 3, 4, 5]];
    let hg = Hypergraph::from_edges(2, 6, &edges).edge_weights(&[7]).build().unwrap();
    for metric in [Metric::Km1, Metric::Cut] {
        let s = hg.partition(&Context::new(metric, 5), 0, 1).unwrap();
        assert_eq!(s.objective, 7);
        assert_eq!(s.status, Status::Balanced);
        let zeros = s.assignment.iter().filter(|&&b| b == 0).count();
        assert_eq!(zeros, 3);
    }
}

#[test]
fn assignment_covers_every_vertex_with_a_block() {
    let edges = vec![vec![0u32, 1], vec![1, 2, 3], vec![3, 4], vec![4, 5, 6, 7], vec![7, 8]];
    let hg = Hypergraph::from_edges(3, 9, &edges).build().unwrap();
    let s = hg.partition(&Context::new(Metric::Km1, 4), 1, 10).unwrap();
    assert_eq!(s.assignment.len(), 9);
    assert!(s.assignment.iter().all(|&b| (0..3).contains(&b)));
}

#[test]
fn fixed_vertices_stay_in_their_blocks() {
    let fixed = [1, UNFIXED, UNFIXED, 0, UNFIXED, UNFIXED, 1];
    let hg = Hypergraph::from_raw(2, 7, &FLAT, &OFFSETS)
        .edge_weights(&WEIGHTS)
        .fixed_vertices(&fixed)
        .build()
        .unwrap();
    let ctx = Context::new(Metric::Km1, 10);
    let s = hg.partition(&ctx, 3, 100).unwrap();
    assert_eq!(s.assignment[0], 1);
    assert_eq!(s.assignment[3], 0);
    assert_eq!(s.assignment[6], 1);
    let previous = [0, 0, 0, 0, 1, 1, 1];
    let t = hg.improve_partition(&ctx, 3, 100, &previous, 3).unwrap();
    assert_eq!(t.assignment[0], 1);
    assert_eq!(t.assignment[3], 0);
    assert_eq!(t.assignment[6], 1);
}

#[test]
fn balanced_status_means_weights_within_bound() {
    let hg = Hypergraph::from_raw(2, 7, &FLAT, &OFFSETS)
        .edge_weights(&WEIGHTS)
        .vertex_weights(&[3, 1, 1, 2, 1, 2, 1])
        .build()
        .unwrap();
    let s = hg.partition(&Context::new(Metric::Km1, 10), 10, 100).unwrap();
    assert_eq!(s.status, Status::Balanced);
    assert!(block_weights_within(&hg, &s.assignment, 10, 100));
}

#[test]
fn unreachable_balance_is_reported() {
    // One vertex outweighs the bound on its own.
    let hg = Hypergraph::from_edges(2, 3, &[vec![0u32, 1, 2]])
        .vertex_weights(&[10, 1, 1])
        .build()
        .unwrap();
    let s = hg.partition(&Context::new(Metric::Km1, 5), 0, 1).unwrap();
    assert_eq!(s.status, Status::BalanceViolated);
    assert!(!block_weights_within(&hg, &s.assignment, 0, 1));
}

#[test]
fn evaluation_twice_gives_the_same_values() {
    let hg = example();
    let part = [0, 1, 0, 1, 0, 1, 0];
    let a = hg.evaluate(&part, Metric::Km1).unwrap();
    let b = hg.evaluate(&part, Metric::Km1).unwrap();
    assert_eq!(a.objective, b.objective);
    assert_eq!(a.block_weights, b.block_weights);
    assert_eq!(a.block_weights, vec![4, 3]);
}

#[test]
fn improvement_is_no_worse_than_a_feasible_start() {
    let hg = example();
    let ctx = Context::new(Metric::Km1, 10);
    let previous = [0, 0, 0, 0, 1, 1, 1];
    let before = hg.evaluate(&previous, Metric::Km1).unwrap().objective;
    assert_eq!(before, 2001);
    let s = hg.improve_partition(&ctx, 3, 100, &previous, 1).unwrap();
    assert!(s.objective <= before);
    assert_eq!(s.status, Status::Balanced);
    assert_eq!(s.objective, hg.evaluate(&s.assignment, Metric::Km1).unwrap().objective);
}

#[test]
fn improvement_with_no_passes_keeps_a_feasible_start() {
    let hg = example();
    let previous = [0, 0, 1, 0, 0, 1, 1];
    let s = hg.improve_partition(&Context::new(Metric::Km1, 0), 3, 100, &previous, 0).unwrap();
    assert_eq!(s.assignment, previous.to_vec());
    assert_eq!(s.objective, 2);
}

#[test]
fn improvement_places_unassigned_vertices() {
    let hg = example();
    let previous = [-1, 0, -1, 0, 1, -1, 1];
    let s = hg.improve_partition(&Context::new(Metric::Km1, 0), 3, 100, &previous, 0).unwrap();
    assert!(s.assignment.iter().all(|&b| b == 0 || b == 1));
    assert_eq!(s.assignment[1], 0);
    assert_eq!(s.assignment[4], 1);
}

#[test]
fn improvement_rejects_bad_input() {
    let hg = example();
    let ctx = Context::new(Metric::Km1, 1);
    assert_eq!(
        hg.improve_partition(&ctx, 3, 100, &[0, 1], 1).err(),
        Some(PartitionError::InvalidInput)
    );
    assert_eq!(
        hg.improve_partition(&ctx, 3, 0, &[0; 7], 1).err(),
        Some(PartitionError::InvalidInput)
    );
    assert_eq!(hg.partition(&ctx, 1, 0).err(), Some(PartitionError::InvalidInput));
}

#[test]
fn cut_and_connectivity_objectives() {
    let edges = vec![vec![0u32, 1, 2], vec![0, 1], vec![2, 3]];
    let hg = Hypergraph::from_edges(3, 4, &edges).edge_weights(&[5, 2, 3]).build().unwrap();
    let part = [0, 1, 2, 2];
    assert_eq!(hg.objective(&part, Metric::Km1), 10 + 2);
    assert_eq!(hg.objective(&part, Metric::Cut), 5 + 2);
    assert_eq!(hg.evaluate(&part, Metric::Cut).unwrap().block_weights, vec![1, 1, 2]);
    assert!(hg.is_balanced(&part, 0, 1));
    assert!(!hg.is_balanced(&[0, 0, 0, 1], 0, 1));
}

#[test]
fn evaluation_rejects_invalid_assignment() {
    let hg = example();
    assert_eq!(hg.evaluate(&[0, 1, 2, 0, 1, 0, 1], Metric::Km1).err(), Some(PartitionError::InvalidInput));
    assert_eq!(hg.evaluate(&[0, 1], Metric::Km1).err(), Some(PartitionError::InvalidInput));
    assert!(!hg.check_assignment(&[0, -1, 0, 0, 1, 0, 1]));
}

#[test]
fn config_lines_select_the_metric() {
    let lines = vec![
        b"# comment".to_vec(),
        b"objective=cut".to_vec(),
        b"mode=direct".to_vec(),
    ];
    let ctx = Context::from_config_lines(&lines);
    assert_eq!(ctx.metric, Metric::Cut);
    assert_eq!(ctx.refinement_passes, kahypar::partitioner::DEFAULT_REFINEMENT_PASSES);
    let later = vec![b"objective=cut".to_vec(), b"objective=km1".to_vec()];
    assert_eq!(Context::from_config_lines(&later).metric, Metric::Km1);
    assert_eq!(Context::from_config_lines(&[b"objective = cut".to_vec()]).metric, Metric::Km1);
}

#[test]
fn improvement_repairs_an_unbalanced_start() {
    let hg = example();
    let previous = [0; 7];
    assert!(!hg.is_balanced(&previous, 3, 100));
    assert!(hg.overload(&previous, 3, 100) > 0);
    let s = hg.improve_partition(&Context::new(Metric::Km1, 1), 3, 100, &previous, 10).unwrap();
    assert_eq!(s.status, Status::Balanced);
    assert!(hg.is_balanced(&s.assignment, 3, 100));
    assert_eq!(hg.overload(&s.assignment, 3, 100), 0);
}
