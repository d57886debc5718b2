use poloto::bounds::{default_unit_range, find_bounds, Domain};
use poloto::render::{histogram, line_fill, scatter, Bar, PathCommand};
use poloto::ticks::DataBound;

#[test]
fn line_breaks_at_a_hole() {
    // Points (0,0), (1,NaN), (2,2): two subpaths of one point each.
    assert_eq!(
        poloto::render::line(&vec![true, false, true]),
        vec![PathCommand::MoveTo(0), PathCommand::MoveTo(2)]
    );
}

#[test]
fn line_joins_finite_runs() {
    assert_eq!(
        poloto::render::line(&vec![true, true, false, true, true, true]),
        vec![
            PathCommand::MoveTo(0),
            PathCommand::LineTo(1),
            PathCommand::MoveTo(3),
            PathCommand::LineTo(4),
            PathCommand::LineTo(5),
        ]
    );
    assert!(poloto::render::line(&vec![]).is_empty());
    assert!(poloto::render::line(&vec![false, false]).is_empty());
}

#[test]
fn line_fill_drops_to_baseline() {
    assert_eq!(
        line_fill(&vec![true, true, false, true], true),
        vec![
            PathCommand::MoveToBase(0),
            PathCommand::LineTo(0),
            PathCommand::LineTo(1),
            PathCommand::LineToBase(1),
            PathCommand::Close,
            PathCommand::MoveToBase(3),
            PathCommand::LineTo(3),
            PathCommand::LineToBase(3),
            PathCommand::Close,
        ]
    );
}

#[test]
fn line_fill_raw_closes_runs() {
    assert_eq!(
        line_fill(&vec![true, true, true], false),
        vec![
            PathCommand::MoveTo(0),
            PathCommand::LineTo(1),
            PathCommand::LineTo(2),
            PathCommand::Close,
        ]
    );
}

#[test]
fn scatter_skips_holes() {
    assert_eq!(scatter(&vec![true, false, true, true]), vec![0, 2, 3]);
}

#[test]
fn histogram_pairs_neighbours() {
    assert_eq!(
        histogram(&vec![true, true, false, true, true]),
        vec![Bar { left: 0, right: 1 }, Bar { left: 3, right: 4 }]
    );
    assert!(histogram(&vec![true]).is_empty());
}

#[test]
fn bounds_cover_points_and_markers() {
    let pts = vec![(3i64, 10i64), (-2, 4), (7, 8)];
    let (bx, by) = find_bounds(&pts, &vec![20], &vec![], Domain::Integer, Domain::Integer);
    assert_eq!(bx, DataBound { min: -2, max: 20 });
    assert_eq!(by, DataBound { min: 4, max: 10 });
}

#[test]
fn bounds_single_point_integer() {
    let (bx, by) = find_bounds(&vec![(5, -3)], &vec![], &vec![], Domain::Integer, Domain::Integer);
    assert_eq!(bx, DataBound { min: 4, max: 6 });
    assert_eq!(by, DataBound { min: -4, max: -2 });
}

#[test]
fn bounds_single_point_time() {
    let (bx, by) = find_bounds(&vec![(1000, 7)], &vec![], &vec![], Domain::Time, Domain::Integer);
    assert_eq!(bx, DataBound { min: 1000, max: 1001 });
    assert_eq!(by, DataBound { min: 6, max: 8 });
}

#[test]
fn bounds_empty_data() {
    let (bx, by) = find_bounds(&vec![], &vec![], &vec![], Domain::Integer, Domain::Time);
    assert_eq!(bx, DataBound { min: -1, max: 1 });
    assert_eq!(by, DataBound { min: 0, max: 1 });
    let (cx, _) = find_bounds(&vec![], &vec![9, 9], &vec![], Domain::Integer, Domain::Time);
    assert_eq!(cx, DataBound { min: 8, max: 10 });
    assert_eq!(default_unit_range(Domain::Time, Some(4)), DataBound { min: 4, max: 5 });
}

#[test]
fn bounds_whole_domain() {
    let (bx, by) = find_bounds(
        &vec![(i64::MIN, 0), (i64::MAX, 0)],
        &vec![],
        &vec![],
        Domain::Integer,
        Domain::Time,
    );
    assert_eq!(bx, DataBound { min: i64::MIN, max: i64::MAX });
    assert_eq!(by, DataBound { min: 0, max: 1 });
}
