use slam_vision::matches::DMatch;
use slam_vision::point::{Point2, Point3};
use slam_vision::recover::{
    feature_point_coordinates, get_own_color_by_index, match_triples, pair_coordinates,
};
use slam_vision::segmentation::{graph_cut_edges, max_flow, Capacity, GraphEdge};
use slam_vision::sfm::best_pose_index;
use slam_vision::single::SingleViewRecover;
use slam_vision::triangulate::Triangulate;

#[test]
fn points_and_homogeneous_coordinates() {
    let p = Point2::new(3usize, 4usize);
    let h = p.homogeneous();
    assert_eq!(h, Point3::new(3, 4, 1));
    assert_eq!(Point2::from_point3(h), p);
    let q = Point2::new(-2i32, 5i32).homogeneous();
    assert_eq!((q.x, q.y, q.z), (-2, 5, 1));
}

#[test]
fn points_from_vectors() {
    assert_eq!(Point2::try_from_vec(&vec![1u32]), Err("Array1 len must >= 2"));
    assert_eq!(Point2::try_from_vec(&Vec::<u32>::new()), Err("Array1 len must >= 2"));
    assert_eq!(Point2::try_from_vec(&vec![1u32, 2]), Ok(Point2::new(1, 2)));
    assert_eq!(Point2::try_from_vec(&vec![1u32, 2, 3]), Ok(Point2::new(1, 2)));
    assert_eq!(Point3::try_from_vec(&vec![1u64, 2]), Err("Array1 len must >= 3"));
    assert_eq!(Point3::try_from_vec(&vec![1u64, 2, 3, 4]), Ok(Point3::new(1, 2, 3)));
}

#[test]
fn unit_structs() {
    assert_eq!(Triangulate::new(), Triangulate {});
    let _ = SingleViewRecover {};
}

#[test]
fn flattened_buffers() {
    let pts = vec![Point2::new(1usize, 2usize), Point2::new(3, 4)];
    assert_eq!(feature_point_coordinates(&pts), vec![1, 2, 3, 4]);
    let ms = vec![DMatch { i1: 0, i2: 5, distance: 9u32 }, DMatch { i1: 2, i2: 1, distance: 0 }];
    assert_eq!(match_triples(&ms), vec![0, 5, 9, 2, 1, 0]);
    let colors: Vec<u8> = (0..12).collect();
    assert_eq!(get_own_color_by_index(&colors, 1), vec![4, 5, 6, 7]);
    let coords = vec![1.5f64, 2.5, 3.5, 4.5, 9.0];
    let ps = pair_coordinates(&coords);
    assert_eq!(ps.len(), 2);
    assert_eq!((ps[1].x, ps[1].y), (3.5, 4.5));
}

#[test]
fn graph_of_two_by_one_image() {
    // One row, two pixels: 0 = (10,0,0,0), 1 = (7,0,0,0); nodes 2 and 3 are
    // the source and the sink.
    let data = vec![10u8, 0, 0, 0, 7, 0, 0, 0];
    let edges = graph_cut_edges(&data, 2, 1, &vec![0, 0], &vec![0, 1]);
    let n = Capacity::Neighbour(9);
    assert_eq!(
        edges,
        vec![
            GraphEdge { from: 0, to: 1, capacity: n },
            GraphEdge { from: 1, to: 0, capacity: n },
            GraphEdge { from: 2, to: 0, capacity: Capacity::Seed },
            GraphEdge { from: 2, to: 2, capacity: Capacity::Empty },
            GraphEdge { from: 3, to: 1, capacity: Capacity::Seed },
            GraphEdge { from: 2, to: 3, capacity: Capacity::Empty },
        ]
    );
}

#[test]
fn graph_colour_distance_wraps() {
    // 3 - 7 wraps to 252 in 8 bits: 252^2 = 63504. Two rows of one pixel.
    let data = vec![3u8, 0, 0, 0, 7, 0, 0, 0];
    let edges = graph_cut_edges(&data, 1, 2, &vec![], &vec![]);
    assert_eq!(
        edges,
        vec![
            GraphEdge { from: 0, to: 1, capacity: Capacity::Neighbour(63504) },
            GraphEdge { from: 1, to: 0, capacity: Capacity::Neighbour(63504) },
        ]
    );
}

#[test]
fn best_pose_is_the_last_of_the_most_counted() {
    assert_eq!(best_pose_index(&vec![3, 9, 2, 5]), 1);
    assert_eq!(best_pose_index(&vec![4, 7, 7, 1]), 2);
    assert_eq!(best_pose_index(&vec![0, 0, 0, 0]), 3);
    assert_eq!(best_pose_index(&vec![6]), 0);
    assert_eq!(best_pose_index(&vec![1, 2, 3, 8]), 3);
}

#[test]
fn neighbour_edges_of_a_square_come_in_reverse_pairs() {
    // 2 x 2 image: four right/down neighbour pairs, no seeds.
    let data: Vec<u8> = (0..16).map(|i| (i * 17) as u8).collect();
    let edges = graph_cut_edges(&data, 2, 2, &vec![], &vec![]);
    assert_eq!(edges.len(), 8);
    for k in 0..4 {
        let (a, b) = (edges[2 * k], edges[2 * k + 1]);
        assert_eq!((b.from, b.to, b.capacity), (a.to, a.from, a.capacity));
    }
    // Pixel 0 joins pixel 1 (right) and pixel 2 (down).
    assert_eq!((edges[0].from, edges[0].to), (0, 1));
    assert_eq!((edges[2].from, edges[2].to), (0, 2));
    assert_eq!((edges[4].from, edges[4].to), (1, 3));
    assert_eq!((edges[6].from, edges[6].to), (2, 3));
}

fn edge(from: usize, to: usize) -> GraphEdge {
    GraphEdge { from, to, capacity: Capacity::Empty }
}

#[test]
fn max_flow_of_small_networks() {
    // s = 0, t = 3; the cheapest cuts ({0}, {0, 1}, {0, 1, 2}) all carry 5.
    let edges = vec![edge(0, 1), edge(0, 2), edge(1, 3), edge(2, 3), edge(1, 2)];
    assert_eq!(max_flow(4, &edges, &vec![3, 2, 2, 3, 1], 0, 3), 5);
    // A chain is limited by its narrowest edge.
    let chain = vec![edge(0, 1), edge(1, 2), edge(2, 3)];
    assert_eq!(max_flow(4, &chain, &vec![7, 1, 9], 0, 3), 1);
    // Nothing reaches the sink.
    assert_eq!(max_flow(3, &vec![edge(0, 1), edge(2, 1)], &vec![4, 4], 0, 2), 0);
    // The edges into the sink could carry more than a u32 holds, but the
    // cut at the source cannot.
    let wide = vec![edge(0, 1), edge(1, 2), edge(1, 2)];
    assert_eq!(max_flow(3, &wide, &vec![5, u32::MAX, u32::MAX], 0, 2), 5);
    // Terminals swapped: the flow runs the other way round the cycle.
    let cycle = vec![edge(0, 1), edge(1, 0)];
    assert_eq!(max_flow(2, &cycle, &vec![6, 2], 1, 0), 2);
}

#[test]
fn graph_cut_graph_sends_no_flow_into_the_sink() {
    // The sink's seed edges leave the sink; the only edge into it is the
    // empty one from the source, so the maximum flow is zero.
    let data = vec![10u8, 0, 0, 0, 7, 0, 0, 0];
    let edges = graph_cut_edges(&data, 2, 1, &vec![0, 0], &vec![0, 1]);
    let caps: Vec<u32> = edges
        .iter()
        .map(|e| match e.capacity {
            Capacity::Neighbour(s) => 1000 / (s + 1),
            Capacity::Seed => u32::MAX,
            Capacity::Empty => 0,
        })
        .collect();
    assert_eq!(max_flow(4, &edges, &caps, 2, 3), 0);
}
