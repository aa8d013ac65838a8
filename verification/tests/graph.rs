use tfl_gtfs::geometry::Point;
use tfl_gtfs::graph::{RouteGraph, ShapeError};

fn two_point_path() -> Vec<Point> {
    vec![Point::new(515000, -1000), Point::new(515040, -1050), Point::new(515100, -1200)]
}

#[test]
fn added_path_round_trips() {
    // a path added to a fresh graph is found unchanged between its endpoints
    let mut g = RouteGraph::new();
    let p = two_point_path();
    g.add_path(&p);
    let found = g.path(p[0], p[2]).unwrap();
    assert_eq!(found, p);
    // and reversed in the other direction
    let back = g.path(p[2], p[0]).unwrap();
    let mut rev = p.clone();
    rev.reverse();
    assert_eq!(back, rev);
}

#[test]
fn add_paths_inserts_each_once() {
    let mut g = RouteGraph::new();
    let p1 = vec![Point::new(515000, -1000), Point::new(515100, -1200)];
    let p2 = vec![Point::new(515100, -1200), Point::new(515200, -1400)];
    let p3 = vec![Point::new(515200, -1400), Point::new(515300, -1600)];
    g.add_paths(&vec![p1, p2, p3]);
    // three paths, four distinct endpoints: the vertex count matches the
    // distinct endpoints, not the square of the input size
    assert_eq!(g.vertex_count(), 4);
}

#[test]
fn far_query_fails_rather_than_best_effort() {
    let mut g = RouteGraph::new();
    let p = two_point_path();
    g.add_path(&p);
    // about one degree of latitude away: more than 2,000 m from every vertex
    let far = Point::new(525000, -1000);
    assert_eq!(g.path(far, p[2]), Err(ShapeError::NoNearbyVertex));
    assert_eq!(g.path(p[0], far), Err(ShapeError::NoNearbyVertex));
}

#[test]
fn empty_graph_has_no_nearby_vertex() {
    let g = RouteGraph::new();
    assert_eq!(g.path(Point::new(515000, -1000), Point::new(515100, -1200)), Err(
        ShapeError::NoNearbyVertex,
    ));
    assert!(g.nearest_vertex(&Point::new(0, 0)).is_none());
}

#[test]
fn disconnected_vertices_are_not_found() {
    let mut g = RouteGraph::new();
    let p1 = vec![Point::new(515000, -1000), Point::new(515100, -1200)];
    let p2 = vec![Point::new(515500, -2000), Point::new(515600, -2200)];
    g.add_path(&p1);
    g.add_path(&p2);
    assert_eq!(g.path(p1[0], p2[1]), Err(ShapeError::NotFound));
}

#[test]
fn multi_segment_walk_concatenates_stored_paths() {
    let mut g = RouteGraph::new();
    let a = Point::new(515000, -1000);
    let b = Point::new(515100, -1200);
    let c = Point::new(515200, -1400);
    let mid = Point::new(515050, -1100);
    g.add_path(&vec![a, mid, b]);
    g.add_path(&vec![b, c]);
    let found = g.path(a, c).unwrap();
    assert_eq!(found, vec![a, mid, b, b, c]);
}

#[test]
fn nearest_vertex_reports_distance() {
    let mut g = RouteGraph::new();
    g.add_path(&vec![Point::new(515000, -1000), Point::new(515100, -1200)]);
    let (v, d) = g.nearest_vertex(&Point::new(515000, -1000)).unwrap();
    assert_eq!(v, Point::new(515000, -1000));
    assert_eq!(d, 0);
}
