use vstd::prelude::*;

use crate::models::{Point, RectangleCoordinates};
use crate::sorting::{
    lemma_sort_by_key, point_sum_key, sort_by_key, sort_points_by_sum, sorted_by_key,
};

verus! {

/// Labels four points already ordered by `x + y`: the first is the top-left
/// corner, the last the bottom-right one, and of the two between them the one
/// with the smaller `x` is the bottom-left corner.
pub open spec fn corners_of_diagonal_order(t: Seq<Point>) -> RectangleCoordinates {
    let (bottom_left, top_right) = if t[1].x < t[2].x {
        (t[1], t[2])
    } else {
        (t[2], t[1])
    };
    RectangleCoordinates { top_left: t[0], top_right, bottom_left, bottom_right: t[3] }
}

/// The corners of a quadrilateral given as exactly four points in any order.
pub open spec fn resolve_corners(points: Seq<Point>) -> Option<RectangleCoordinates> {
    if points.len() == 4 {
        Some(corners_of_diagonal_order(sort_by_key(points, point_sum_key())))
    } else {
        None
    }
}

fn locate_corners(points: (Point, Point, Point, Point)) -> (r: RectangleCoordinates)
    ensures
        r == corners_of_diagonal_order(
            sort_by_key(seq![points.0, points.1, points.2, points.3], point_sum_key()),
        ),
{
    let (a, b, c, d) = points;
    let mut point_array: Vec<Point> = Vec::new();
    point_array.push(a);
    point_array.push(b);
    point_array.push(c);
    point_array.push(d);
    proof {
        assert(point_array@ =~= seq![a, b, c, d]);
    }
    let sorted = sort_points_by_sum(point_array);
    proof {
        lemma_sort_by_key(seq![a, b, c, d], point_sum_key());
    }
    let top_left = sorted[0];
    let bottom_right = sorted[3];
    let (bottom_left, top_right) = if sorted[1].x < sorted[2].x {
        (sorted[1], sorted[2])
    } else {
        (sorted[2], sorted[1])
    };
    RectangleCoordinates { top_left, top_right, bottom_left, bottom_right }
}

/// Labels the corners of a quadrilateral; `None` unless there are exactly four points.
pub fn get_rectangle_coordinates(coordinates: &Vec<Point>) -> (r: Option<RectangleCoordinates>)
    ensures
        r == resolve_corners(coordinates@),
{
    if coordinates.len() == 4 {
        let corners = locate_corners((coordinates[0], coordinates[1], coordinates[2], coordinates[3]));
        proof {
            assert(seq![coordinates[0], coordinates[1], coordinates[2], coordinates[3]]
                =~= coordinates@);
        }
        Some(corners)
    } else {
        None
    }
}

/// The four corners of an axis-aligned rectangle are labelled correctly whatever
/// order they come in.
pub proof fn lemma_axis_aligned_corners_any_order(
    left: i32,
    right: i32,
    top: i32,
    bottom: i32,
    points: Seq<Point>,
)
    requires
        left < right,
        top < bottom,
        points.to_multiset() == seq![
            Point { x: left, y: top },
            Point { x: right, y: top },
            Point { x: left, y: bottom },
            Point { x: right, y: bottom },
        ].to_multiset(),
    ensures
        resolve_corners(points) == Some(
            RectangleCoordinates {
                top_left: Point { x: left, y: top },
                top_right: Point { x: right, y: top },
                bottom_left: Point { x: left, y: bottom },
                bottom_right: Point { x: right, y: bottom },
            },
        ),
{
    broadcast use vstd::seq_lib::to_multiset_build, vstd::seq_lib::to_multiset_len;

    let tl = Point { x: left, y: top };
    let tr = Point { x: right, y: top };
    let bl = Point { x: left, y: bottom };
    let br = Point { x: right, y: bottom };
    let q = seq![tl, tr, bl, br];
    let key = point_sum_key();
    assert(q =~= Seq::<Point>::empty().push(tl).push(tr).push(bl).push(br));
    assert(q.to_multiset().len() == 4);
    assert(points.len() == 4);
    lemma_sort_by_key(points, key);
    let t = sort_by_key(points, key);
    assert(sorted_by_key(t, key));
    assert(t =~= Seq::<Point>::empty().push(t[0]).push(t[1]).push(t[2]).push(t[3]));
    let m = q.to_multiset();
    assert(t.to_multiset() == m);
    assert(m.count(tl) == 1);
    assert(m.count(tr) == 1);
    assert(m.count(bl) == 1);
    assert(m.count(br) == 1);
    assert forall|i: int| 0 <= i < 4 implies (#[trigger] t[i] == tl || t[i] == tr || t[i] == bl
        || t[i] == br) by {
        if !(t[i] == tl || t[i] == tr || t[i] == bl || t[i] == br) {
            assert(m.count(t[i]) == 0);
        }
    }
    assert(key(t[0]) <= key(t[1]) && key(t[0]) <= key(t[2]) && key(t[0]) <= key(t[3]));
    assert(key(t[3]) >= key(t[1]) && key(t[3]) >= key(t[2]));
    assert(t[0] == tl);
    assert(t[3] == br);
    assert(t[1] == tr || t[1] == bl);
    assert(t[2] == tr || t[2] == bl);
    assert(t[1] != t[2]);
}

} // verus!
