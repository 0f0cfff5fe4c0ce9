use swath_planner::crossing::{edge_crossing, line_crossings, pair_crossings};
use swath_planner::geometry::{PathPoint, Point, Ratio, Segment};
use swath_planner::order::sort_ratios;
use swath_planner::planner::line_segments;
use swath_planner::polygon::{bounding_box, close_ring, sweeps_horizontally, Bounds, PlanError};
use swath_planner::stitch::stitch;
use swath_planner::swath::swath_lines;
use swath_planner::{compute_shortest_path, md_to_html, DEFAULT_SWATH_WIDTH};

fn pt(x: i32, y: i32) -> Point {
    Point { x, y }
}

fn value(r: Ratio) -> f64 {
    r.num as f64 / r.den as f64
}

fn coords(path: &[PathPoint]) -> Vec<(f64, f64)> {
    path.iter().map(|p| (value(p.x), value(p.y))).collect()
}

fn rat(num: i128, den: i128) -> Ratio {
    Ratio { num, den }
}

#[test]
fn rectangle_path_alternates_per_line() {
    let poly = vec![pt(0, 0), pt(100, 0), pt(100, 30), pt(0, 30)];
    let ring = close_ring(&poly).unwrap();
    let b = bounding_box(&ring);
    assert_eq!(b, Bounds { min_x: 0, max_x: 100, min_y: 0, max_y: 30 });
    assert!(sweeps_horizontally(&b));
    assert_eq!(swath_lines(0, 30, 10), vec![10, 30, 50]);
    for line in [10i64, 30, 50] {
        assert_eq!(line_segments(&ring, true, line).len(), 1);
    }
    let path = compute_shortest_path(&poly, 10).unwrap();
    assert_eq!(
        coords(&path),
        vec![(0.0, 5.0), (100.0, 5.0), (100.0, 15.0), (0.0, 15.0), (0.0, 25.0), (100.0, 25.0)]
    );
}

#[test]
fn triangle_gives_one_segment() {
    let poly = vec![pt(0, 0), pt(10, 0), pt(5, 10)];
    let ring = close_ring(&poly).unwrap();
    let b = bounding_box(&ring);
    assert_eq!(b.max_x - b.min_x, 10);
    assert_eq!(b.max_y - b.min_y, 10);
    assert!(sweeps_horizontally(&b));
    assert_eq!(swath_lines(0, 10, 10), vec![10]);
    assert_eq!(line_crossings(&ring, true, 10).len(), 2);
    let path = compute_shortest_path(&poly, 10).unwrap();
    assert_eq!(coords(&path), vec![(2.5, 5.0), (7.5, 5.0)]);
}

#[test]
fn two_points_are_refused() {
    let poly = vec![pt(0, 0), pt(10, 0)];
    assert_eq!(compute_shortest_path(&poly, 10), Err(PlanError::InvalidPolygon));
    assert_eq!(close_ring(&poly), Err(PlanError::InvalidPolygon));
    assert_eq!(compute_shortest_path(&vec![], 10), Err(PlanError::InvalidPolygon));
}

#[test]
fn collinear_points_do_not_fail() {
    let poly = vec![pt(0, 0), pt(5, 5), pt(10, 10)];
    let path = compute_shortest_path(&poly, 10).unwrap();
    assert_eq!(path.len() % 2, 0);
    assert_eq!(coords(&path), vec![(5.0, 5.0), (5.0, 5.0)]);
    let flat = vec![pt(0, 0), pt(5, 0), pt(10, 0)];
    assert_eq!(compute_shortest_path(&flat, 10).unwrap(), vec![]);
}

#[test]
fn planning_twice_gives_the_same_path() {
    let poly = vec![pt(0, 0), pt(73, 4), pt(88, 41), pt(12, 57), pt(-9, 20)];
    let a = compute_shortest_path(&poly, 7).unwrap();
    let b = compute_shortest_path(&poly, 7).unwrap();
    assert_eq!(a, b);
    assert!(!a.is_empty());
}

#[test]
fn ring_is_closed_either_way() {
    let open = vec![pt(0, 0), pt(4, 0), pt(4, 4)];
    let ring = close_ring(&open).unwrap();
    assert_eq!(ring, vec![pt(0, 0), pt(4, 0), pt(4, 4), pt(0, 0)]);
    let shut = vec![pt(0, 0), pt(4, 0), pt(4, 4), pt(0, 0)];
    let ring = close_ring(&shut).unwrap();
    assert_eq!(ring, shut);
    assert_eq!(ring.first(), ring.last());
}

#[test]
fn stitch_reverses_every_second_segment() {
    let p = |x: i128, y: i128| PathPoint { x: rat(x, 1), y: rat(y, 1) };
    let segs = vec![
        Segment { start: p(0, 1), end: p(9, 1) },
        Segment { start: p(0, 2), end: p(9, 2) },
        Segment { start: p(0, 3), end: p(9, 3) },
    ];
    let path = stitch(&segs);
    assert_eq!(path, vec![p(0, 1), p(9, 1), p(9, 2), p(0, 2), p(0, 3), p(9, 3)]);
    assert_eq!(stitch(&vec![]), vec![]);
}

#[test]
fn line_count_rounds_up_the_trailing_margin() {
    // extent 95, width 10: ceil(85 / 10) + 1 lines, the last at 90
    let lines = swath_lines(0, 95, 10);
    assert_eq!(lines.len(), 10);
    assert_eq!(lines[0], 10);
    assert_eq!(lines[8], 170);
    assert_eq!(lines[9], 180);
    // an exact multiple needs no extra line
    assert_eq!(swath_lines(0, 100, 10).len(), 10);
    // odd width: offsets at half units
    assert_eq!(swath_lines(3, 20, 5), vec![11, 21, 31, 35]);
}

#[test]
fn narrow_extent_gets_one_line() {
    assert_eq!(swath_lines(0, 4, 10), vec![-2]);
    let poly = vec![pt(0, 0), pt(100, 0), pt(100, 4), pt(0, 4)];
    assert_eq!(compute_shortest_path(&poly, 10).unwrap(), vec![]);
}

#[test]
fn tall_polygon_sweeps_vertically() {
    let poly = vec![pt(0, 0), pt(20, 0), pt(20, 100), pt(0, 100)];
    let b = bounding_box(&close_ring(&poly).unwrap());
    assert!(!sweeps_horizontally(&b));
    let path = compute_shortest_path(&poly, 10).unwrap();
    assert_eq!(coords(&path), vec![(5.0, 0.0), (5.0, 100.0), (15.0, 100.0), (15.0, 0.0)]);
}

#[test]
fn default_width_plans_like_ten() {
    let poly = vec![pt(0, 0), pt(100, 0), pt(100, 30), pt(0, 30)];
    assert_eq!(DEFAULT_SWATH_WIDTH, 10);
    assert_eq!(
        compute_shortest_path(&poly, DEFAULT_SWATH_WIDTH),
        compute_shortest_path(&poly, 10)
    );
}

#[test]
fn crossing_interpolates_and_skips_parallel_edges() {
    assert_eq!(edge_crossing(pt(0, 0), pt(10, 0), true, 0), None);
    let c = edge_crossing(pt(10, 0), pt(5, 10), true, 10).unwrap();
    assert_eq!(value(c), 7.5);
    assert!(c.den > 0);
    // half-open: the upper end of an edge is not crossed
    assert_eq!(edge_crossing(pt(0, 0), pt(4, 10), true, 20), None);
    assert!(edge_crossing(pt(0, 0), pt(4, 10), true, 0).is_some());
    let v = edge_crossing(pt(0, 0), pt(10, 20), false, 10).unwrap();
    assert_eq!(value(v), 10.0);
}

#[test]
fn sort_orders_by_value_and_keeps_ties() {
    let v = vec![rat(3, 1), rat(1, 2), rat(2, 4), rat(-7, 3)];
    let s = sort_ratios(&v);
    assert_eq!(s, vec![rat(-7, 3), rat(1, 2), rat(2, 4), rat(3, 1)]);
    assert!(rat(1, 3).less_than(&rat(1, 2)));
    assert!(!rat(2, 4).less_than(&rat(1, 2)));
}

#[test]
fn odd_crossing_is_dropped() {
    let s = vec![rat(0, 1), rat(4, 1), rat(9, 1)];
    let segs = pair_crossings(&s, true, 6);
    assert_eq!(segs.len(), 1);
    assert_eq!(segs[0].start, PathPoint { x: rat(0, 1), y: rat(6, 2) });
    assert_eq!(segs[0].end, PathPoint { x: rat(4, 1), y: rat(6, 2) });
}

#[test]
fn concave_polygon_gives_two_segments_on_a_line() {
    // a U shape: the line y = 15 crosses both arms
    let poly = vec![pt(0, 0), pt(30, 0), pt(30, 20), pt(20, 20), pt(20, 10), pt(10, 10), pt(10, 20), pt(0, 20)];
    let ring = close_ring(&poly).unwrap();
    let segs = line_segments(&ring, true, 30);
    assert_eq!(segs.len(), 2);
    assert_eq!(value(segs[0].start.x), 0.0);
    assert_eq!(value(segs[0].end.x), 10.0);
    assert_eq!(value(segs[1].start.x), 20.0);
    assert_eq!(value(segs[1].end.x), 30.0);
}

#[test]
fn markdown_renders_heading() {
    assert_eq!(md_to_html("# Hi"), "<h1>Hi</h1>\n");
    assert_eq!(md_to_html("plain *em*"), "<p>plain <em>em</em></p>\n");
}

#[test]
fn polygon_line_count_follows_its_height() {
    // height 47, width 10: ceil(37 / 10) + 1 = 5 lines, the last at 42
    let poly = vec![pt(0, 0), pt(100, 0), pt(100, 47), pt(0, 47)];
    let path = compute_shortest_path(&poly, 10).unwrap();
    assert_eq!(path.len(), 10);
    let ys: Vec<f64> = path.iter().step_by(2).map(|p| value(p.y)).collect();
    assert_eq!(ys, vec![5.0, 15.0, 25.0, 35.0, 42.0]);
    assert_eq!(value(path[8].x), 0.0);
    assert_eq!(value(path[9].x), 100.0);
}
