use wireframe_edges::edge::{Edge, Triangle};
use wireframe_edges::extract::{
    extract_edge_segments, indices_are_in_range, triangle_is_in_range, EdgeError, Segment,
};
use wireframe_edges::position::Position;

fn point(x: f32, y: f32, z: f32) -> Position {
    Position { x: x.to_bits(), y: y.to_bits(), z: z.to_bits() }
}

fn corners() -> Vec<Position> {
    vec![
        point(0.0, 0.0, 0.0),
        point(1.0, 0.0, 0.0),
        point(0.0, 1.0, 0.0),
        point(0.0, 0.0, 1.0),
    ]
}

fn edges_of(segments: &[Segment]) -> Vec<(u32, u32)> {
    segments.iter().map(|s| (s.edge.from, s.edge.to)).collect()
}

#[test]
fn empty_mesh_has_no_segments() {
    let positions: Vec<Position> = Vec::new();
    let triangles: Vec<Triangle> = Vec::new();
    assert_eq!(extract_edge_segments(&positions, &triangles), Ok(vec![]));
}

#[test]
fn positions_without_triangles_have_no_segments() {
    let triangles: Vec<Triangle> = Vec::new();
    assert_eq!(extract_edge_segments(&corners(), &triangles), Ok(vec![]));
}

#[test]
fn triangle_2_0_1_keeps_two_slots() {
    let segments = extract_edge_segments(&corners(), &vec![(2, 0, 1)]).unwrap();
    assert_eq!(segments.len(), 2);
    assert_eq!(edges_of(&segments), vec![(0, 1), (1, 2)]);
}

#[test]
fn rising_triangle_keeps_first_two_slots() {
    let segments = extract_edge_segments(&corners(), &vec![(0, 1, 2)]).unwrap();
    assert_eq!(edges_of(&segments), vec![(0, 1), (1, 2)]);
}

#[test]
fn falling_triangle_keeps_last_slot_only() {
    let segments = extract_edge_segments(&corners(), &vec![(2, 1, 0)]).unwrap();
    assert_eq!(edges_of(&segments), vec![(0, 2)]);
}

#[test]
fn repeated_index_slot_is_dropped() {
    let segments = extract_edge_segments(&corners(), &vec![(1, 1, 3)]).unwrap();
    assert_eq!(edges_of(&segments), vec![(1, 3)]);
    let none = extract_edge_segments(&corners(), &vec![(2, 2, 2)]).unwrap();
    assert_eq!(none, vec![]);
}

#[test]
fn segment_carries_both_end_positions() {
    let positions = vec![point(0.0, 0.0, 0.0), point(2.0, 0.0, 0.0), point(0.0, 3.0, 0.0)];
    let segments = extract_edge_segments(&positions, &vec![(0, 1, 2)]).unwrap();
    assert_eq!(
        segments,
        vec![
            Segment {
                edge: Edge { from: 0, to: 1 },
                start: point(0.0, 0.0, 0.0),
                end: point(2.0, 0.0, 0.0),
            },
            Segment {
                edge: Edge { from: 1, to: 2 },
                start: point(2.0, 0.0, 0.0),
                end: point(0.0, 3.0, 0.0),
            },
        ]
    );
}

#[test]
fn segment_starts_at_the_smaller_index() {
    let positions = vec![point(0.0, 0.0, 0.0), point(2.0, 0.0, 0.0), point(0.0, 3.0, 0.0)];
    let segments = extract_edge_segments(&positions, &vec![(1, 0, 2)]).unwrap();
    assert_eq!(edges_of(&segments), vec![(0, 2)]);
    assert_eq!(f32::from_bits(segments[0].start.x), 0.0);
    assert_eq!(f32::from_bits(segments[0].end.y), 3.0);
    let length = f32::from_bits(segments[0].end.y) - f32::from_bits(segments[0].start.y);
    assert_eq!(length, 3.0);
}

#[test]
fn segments_come_in_triangle_then_slot_order() {
    let triangles = vec![(2, 3, 0), (0, 1, 2), (3, 1, 0)];
    let segments = extract_edge_segments(&corners(), &triangles).unwrap();
    assert_eq!(edges_of(&segments), vec![(2, 3), (0, 2), (0, 1), (1, 2), (0, 3)]);
}

#[test]
fn closed_tetrahedron_lists_each_edge_once() {
    let triangles = vec![(0, 2, 1), (0, 1, 3), (1, 2, 3), (0, 3, 2)];
    let segments = extract_edge_segments(&corners(), &triangles).unwrap();
    let mut edges = edges_of(&segments);
    assert_eq!(edges.len(), 6);
    edges.sort();
    assert_eq!(edges, vec![(0, 1), (0, 2), (0, 3), (1, 2), (1, 3), (2, 3)]);
}

#[test]
fn shared_edge_walked_twice_alike_is_listed_twice() {
    let triangles = vec![(0, 1, 2), (0, 1, 3)];
    let segments = extract_edge_segments(&corners(), &triangles).unwrap();
    assert_eq!(edges_of(&segments), vec![(0, 1), (1, 2), (0, 1), (1, 3)]);
}

#[test]
fn count_stays_within_three_per_triangle() {
    let meshes: Vec<Vec<Triangle>> = vec![
        vec![],
        vec![(0, 1, 2)],
        vec![(2, 1, 0)],
        vec![(0, 1, 2), (1, 2, 3), (3, 2, 1), (0, 0, 0)],
        vec![(0, 2, 1), (0, 1, 3), (1, 2, 3), (0, 3, 2)],
    ];
    for triangles in meshes {
        let segments = extract_edge_segments(&corners(), &triangles).unwrap();
        assert!(segments.len() <= 3 * triangles.len());
        assert!(segments.len() <= 2 * triangles.len());
        for s in &segments {
            assert!(s.edge.from < s.edge.to);
        }
    }
}

#[test]
fn index_out_of_range_is_refused() {
    assert_eq!(extract_edge_segments(&corners(), &vec![(0, 1, 4)]), Err(EdgeError::InvalidIndex));
    assert_eq!(extract_edge_segments(&corners(), &vec![(4, 1, 0)]), Err(EdgeError::InvalidIndex));
    assert_eq!(
        extract_edge_segments(&corners(), &vec![(0, u32::MAX, 1)]),
        Err(EdgeError::InvalidIndex)
    );
    assert_eq!(extract_edge_segments(&Vec::new(), &vec![(0, 0, 0)]), Err(EdgeError::InvalidIndex));
}

#[test]
fn one_bad_triangle_refuses_the_whole_mesh() {
    let triangles = vec![(0, 1, 2), (1, 2, 3), (2, 3, 7)];
    assert_eq!(extract_edge_segments(&corners(), &triangles), Err(EdgeError::InvalidIndex));
}

#[test]
fn largest_index_in_range_is_accepted() {
    let segments = extract_edge_segments(&corners(), &vec![(3, 2, 1)]).unwrap();
    assert_eq!(edges_of(&segments), vec![(1, 3)]);
}

#[test]
fn coinciding_ends_are_refused() {
    let positions = vec![point(1.0, 2.0, 3.0), point(1.0, 2.0, 3.0), point(0.0, 0.0, 0.0)];
    assert_eq!(
        extract_edge_segments(&positions, &vec![(0, 1, 2)]),
        Err(EdgeError::DegenerateEdge)
    );
}

#[test]
fn zeros_of_either_sign_coincide() {
    let positions = vec![point(0.0, 0.0, 0.0), point(-0.0, 0.0, -0.0), point(1.0, 0.0, 0.0)];
    assert_eq!(
        extract_edge_segments(&positions, &vec![(0, 1, 2)]),
        Err(EdgeError::DegenerateEdge)
    );
}

#[test]
fn coinciding_ends_of_a_dropped_slot_do_no_harm() {
    let positions = vec![point(1.0, 2.0, 3.0), point(1.0, 2.0, 3.0), point(0.0, 0.0, 0.0)];
    let segments = extract_edge_segments(&positions, &vec![(1, 0, 2)]).unwrap();
    assert_eq!(edges_of(&segments), vec![(0, 2)]);
}

#[test]
fn degenerate_edge_in_a_later_triangle_is_refused() {
    let positions = vec![
        point(0.0, 0.0, 0.0),
        point(1.0, 0.0, 0.0),
        point(0.0, 1.0, 0.0),
        point(0.0, 1.0, 0.0),
    ];
    let triangles = vec![(0, 1, 2), (2, 3, 0)];
    assert_eq!(extract_edge_segments(&positions, &triangles), Err(EdgeError::DegenerateEdge));
}

#[test]
fn invalid_index_outranks_degenerate_edge() {
    let positions = vec![point(1.0, 2.0, 3.0), point(1.0, 2.0, 3.0), point(0.0, 0.0, 0.0)];
    let triangles = vec![(0, 1, 2), (0, 1, 3)];
    assert_eq!(extract_edge_segments(&positions, &triangles), Err(EdgeError::InvalidIndex));
}

#[test]
fn no_segment_of_an_accepted_mesh_has_coinciding_ends() {
    let triangles = vec![(0, 2, 1), (0, 1, 3), (1, 2, 3), (0, 3, 2)];
    let segments = extract_edge_segments(&corners(), &triangles).unwrap();
    for s in &segments {
        assert!(!s.start.coincides(&s.end));
        let dx = f32::from_bits(s.end.x) - f32::from_bits(s.start.x);
        let dy = f32::from_bits(s.end.y) - f32::from_bits(s.start.y);
        let dz = f32::from_bits(s.end.z) - f32::from_bits(s.start.z);
        let length = (dx * dx + dy * dy + dz * dz).sqrt();
        assert!(length > 0.0);
        assert!(!(dx / length).is_nan());
    }
}

#[test]
fn two_runs_end_alike() {
    let triangles = vec![(0, 2, 1), (0, 1, 3), (1, 2, 3), (0, 3, 2)];
    let first = extract_edge_segments(&corners(), &triangles);
    let second = extract_edge_segments(&corners(), &triangles);
    assert_eq!(first, second);
    let bad = vec![(0, 1, 9)];
    assert_eq!(extract_edge_segments(&corners(), &bad), extract_edge_segments(&corners(), &bad));
}

#[test]
fn range_check_of_one_triangle() {
    assert!(triangle_is_in_range(&(0, 1, 2), 3));
    assert!(!triangle_is_in_range(&(0, 1, 3), 3));
    assert!(!triangle_is_in_range(&(3, 1, 0), 3));
    assert!(!triangle_is_in_range(&(0, 3, 0), 3));
    assert!(!triangle_is_in_range(&(0, 0, 0), 0));
}

#[test]
fn range_check_of_a_triangle_list() {
    assert!(indices_are_in_range(&vec![], 0));
    assert!(indices_are_in_range(&vec![(0, 1, 2), (2, 1, 0)], 3));
    assert!(!indices_are_in_range(&vec![(0, 1, 2), (2, 1, 3)], 3));
    assert!(!indices_are_in_range(&vec![(5, 1, 2), (2, 1, 0)], 3));
}
