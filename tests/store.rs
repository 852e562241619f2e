use kahypar::{Hypergraph, PartitionError, UNFIXED};

const FLAT: [u32; 12] = [0, 2, 0, 1, 3, 4, 3, 4, 6, 2, 5, 6];
const OFFSETS: [u64; 5] = [0, 2, 6, 9, 12];

#[test]
fn csr_round_trip() {
    let hg = Hypergraph::from_raw(2, 7, &FLAT, &OFFSETS).build().unwrap();
    assert_eq!(hg.edge_count(), 4);
    assert_eq!(hg.vertex_count(), 7);
    assert_eq!(hg.edge_pins(0), &[0, 2]);
    assert_eq!(hg.edge_pins(1), &[0, 1, 3, 4]);
    assert_eq!(hg.edge_pins(2), &[3, 4, 6]);
    assert_eq!(hg.edge_pins(3), &[2, 5, 6]);
    assert_eq!(hg.incident_edges(0), &[0, 1]);
    assert_eq!(hg.incident_edges(1), &[1]);
    assert_eq!(hg.incident_edges(3), &[1, 2]);
    assert_eq!(hg.incident_edges(6), &[2, 3]);
    assert_eq!(hg.edge_weight(2), 1);
    assert_eq!(hg.vertex_weight(5), 1);
    assert_eq!(hg.fixed_block(5), UNFIXED);
    assert_eq!(hg.total_vertex_weight(), 7);
}

#[test]
fn repeated_pin_is_listed_once_in_incidence() {
    let hg = Hypergraph::from_edges(2, 3, &[vec![1u32, 1, 2], vec![0, 1]]).build().unwrap();
    assert_eq!(hg.edge_pins(0), &[1, 1, 2]);
    assert_eq!(hg.incident_edges(1), &[0, 1]);
    assert_eq!(hg.incident_edges(2), &[0]);
}

#[test]
fn from_edges_matches_from_raw() {
    let edges = vec![vec![0u32, 2], vec![0, 1, 3, 4], vec![3, 4, 6], vec![2, 5, 6]];
    let b = Hypergraph::from_edges(2, 7, &edges);
    assert_eq!(b.edges_flat, FLAT.to_vec());
    assert_eq!(b.edge_indices, OFFSETS.to_vec());
    assert_eq!(b.edges, 4);
}

#[test]
fn from_incidence_reads_columns() {
    // rows are vertices, columns edges
    let m = vec![
        vec![true, false],
        vec![true, true],
        vec![false, true],
        vec![false, false],
    ];
    let b = Hypergraph::from_incidence(2, 4, 2, &m);
    assert_eq!(b.edges_flat, vec![0, 1, 1, 2]);
    assert_eq!(b.edge_indices, vec![0, 2, 4]);
    let hg = b.build().unwrap();
    assert_eq!(hg.edge_pins(1), &[1, 2]);
    assert_eq!(hg.incident_edges(3), &[] as &[usize]);
}

#[test]
fn builder_options_are_kept() {
    let b = Hypergraph::from_raw(2, 7, &FLAT, &OFFSETS)
        .edge_weights(&[1, 1000, 1, 1000])
        .vertex_weights(&[1, 2, 3, 4, 5, 6, 7])
        .fixed_vertices(&[UNFIXED, 1, UNFIXED, UNFIXED, 0, UNFIXED, UNFIXED]);
    let hg = b.build().unwrap();
    assert_eq!(hg.edge_weight(1), 1000);
    assert_eq!(hg.vertex_weight(6), 7);
    assert_eq!(hg.fixed_block(1), 1);
    assert_eq!(hg.fixed_block(4), 0);
    assert_eq!(hg.total_vertex_weight(), 28);
}

fn build_err(b: kahypar::HypergraphBuilder) -> Option<PartitionError> {
    b.build().err()
}

#[test]
fn malformed_input_is_rejected() {
    let bad = Some(PartitionError::InvalidInput);
    // offsets go down
    assert_eq!(build_err(Hypergraph::from_raw(2, 7, &FLAT, &[0, 6, 2, 9, 12])), bad);
    // last offset differs from the pin count
    assert_eq!(build_err(Hypergraph::from_raw(2, 7, &FLAT, &[0, 2, 6, 9, 11])), bad);
    // first offset is not zero
    assert_eq!(build_err(Hypergraph::from_raw(2, 7, &FLAT, &[1, 2, 6, 9, 12])), bad);
    // a pin names a missing vertex
    assert_eq!(build_err(Hypergraph::from_raw(2, 6, &FLAT, &OFFSETS)), bad);
    // weight arrays of the wrong length, or negative
    assert_eq!(build_err(Hypergraph::from_raw(2, 7, &FLAT, &OFFSETS).edge_weights(&[1, 2])), bad);
    assert_eq!(build_err(Hypergraph::from_raw(2, 7, &FLAT, &OFFSETS).vertex_weights(&[1; 6])), bad);
    assert_eq!(
        build_err(Hypergraph::from_raw(2, 7, &FLAT, &OFFSETS).edge_weights(&[1, -1, 1, 1])),
        bad
    );
    // fixed block out of range
    assert_eq!(
        build_err(Hypergraph::from_raw(2, 7, &FLAT, &OFFSETS).fixed_vertices(&[0, 0, 0, 2, 0, 0, 0])),
        bad
    );
    // fewer than two blocks
    assert_eq!(build_err(Hypergraph::from_raw(1, 7, &FLAT, &OFFSETS)), bad);
    // edge count disagrees with the offsets
    let mut b = Hypergraph::from_raw(2, 7, &FLAT, &OFFSETS);
    b.edges = 3;
    assert_eq!(build_err(b), bad);
}

#[test]
fn weight_sums_that_overflow_are_rejected() {
    let edges = vec![vec![0u32, 1]; 5];
    let b = Hypergraph::from_edges(i32::MAX as usize, 2, &edges).edge_weights(&[i32::MAX; 5]);
    assert_eq!(build_err(b), Some(PartitionError::WeightOverflow));
    let ok = Hypergraph::from_edges(2, 2, &edges).edge_weights(&[i32::MAX; 5]);
    assert!(ok.build().is_ok());
}

#[test]
fn empty_offsets_are_rejected_by_build() {
    let b = Hypergraph::from_raw(2, 3, &[], &[]);
    assert_eq!(b.edges, 0);
    assert_eq!(build_err(b), Some(PartitionError::InvalidInput));
}
