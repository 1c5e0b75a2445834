use std::sync::Arc;

use bpm_ocr::debug::{BpmOcrDebugOutputter, DebugStage, TempFolderDebugger};
use bpm_ocr::lcd_screen_extractor::{
    contour_doubled_area, LcdScreenExtractor, extract_lcd_birdseye_view, get_lcd_candidates, locate_screen,
    select_best_candidate,
};
use bpm_ocr::models::{Point, ProcessingError, ReadingIdentificationError, RectangleCoordinates};
use bpm_ocr::rectangle::get_rectangle_coordinates;

fn p(x: i32, y: i32) -> Point {
    Point::new(x, y)
}

fn permutations(items: &[Point]) -> Vec<Vec<Point>> {
    if items.len() <= 1 {
        return vec![items.to_vec()];
    }
    let mut out = Vec::new();
    for i in 0..items.len() {
        let mut rest = items.to_vec();
        let first = rest.remove(i);
        for mut tail in permutations(&rest) {
            tail.insert(0, first);
            out.push(tail);
        }
    }
    out
}

#[test]
fn corners_of_rectangle_in_every_order() {
    let expected = RectangleCoordinates {
        top_left: p(10, 20),
        top_right: p(90, 20),
        bottom_left: p(10, 60),
        bottom_right: p(90, 60),
    };
    let orders = permutations(&[p(10, 20), p(90, 20), p(10, 60), p(90, 60)]);
    assert_eq!(orders.len(), 24);
    for order in orders {
        assert_eq!(get_rectangle_coordinates(&order), Some(expected));
    }
}

#[test]
fn corners_of_square_with_equal_diagonal_sums() {
    let expected = RectangleCoordinates {
        top_left: p(0, 0),
        top_right: p(5, 0),
        bottom_left: p(0, 5),
        bottom_right: p(5, 5),
    };
    for order in permutations(&[p(0, 0), p(5, 0), p(0, 5), p(5, 5)]) {
        assert_eq!(get_rectangle_coordinates(&order), Some(expected));
    }
}

#[test]
fn corners_need_exactly_four_points() {
    assert_eq!(get_rectangle_coordinates(&vec![]), None);
    assert_eq!(get_rectangle_coordinates(&vec![p(0, 0), p(1, 0), p(1, 1)]), None);
    assert_eq!(
        get_rectangle_coordinates(&vec![p(0, 0), p(1, 0), p(1, 1), p(0, 1), p(2, 2)]),
        None
    );
}

#[test]
fn corners_of_skewed_quadrilateral() {
    let r = get_rectangle_coordinates(&vec![p(100, 110), p(12, 14), p(95, 8), p(18, 120)]).unwrap();
    assert_eq!(r.top_left, p(12, 14));
    assert_eq!(r.top_right, p(95, 8));
    assert_eq!(r.bottom_left, p(18, 120));
    assert_eq!(r.bottom_right, p(100, 110));
}

#[test]
fn doubled_area_follows_orientation() {
    let clockwise = vec![p(0, 0), p(4, 0), p(4, 3), p(0, 3)];
    let anticlockwise = vec![p(0, 0), p(0, 3), p(4, 3), p(4, 0)];
    assert_eq!(contour_doubled_area(&clockwise), 24);
    assert_eq!(contour_doubled_area(&anticlockwise), -24);
    assert_eq!(contour_doubled_area(&vec![]), 0);
}

#[test]
fn birdseye_size_uses_integer_square_roots() {
    let corners = RectangleCoordinates {
        top_left: p(0, 0),
        top_right: p(3, 4),
        bottom_left: p(1, 10),
        bottom_right: p(8, 10),
    };
    let view = extract_lcd_birdseye_view(corners);
    // bottom side 7, top side 5; right side sqrt(61) -> 7, left side sqrt(101) -> 10
    assert_eq!(view.width, 7);
    assert_eq!(view.height, 10);
    assert_eq!(view.corners, corners);
}

#[test]
fn candidates_keep_four_point_outlines_in_order() {
    let outlines = vec![
        vec![p(1, 1), p(5, 1), p(5, 5)],
        vec![p(0, 0), p(10, 0), p(10, 10), p(0, 10)],
        vec![p(2, 2), p(3, 2), p(3, 3), p(2, 3), p(2, 4)],
        vec![p(0, 0), p(2, 0), p(2, 2), p(0, 2)],
    ];
    let (candidates, rejected) = get_lcd_candidates(&outlines);
    assert_eq!(candidates.len(), 2);
    assert_eq!(candidates[0].contour_index, 1);
    assert_eq!(candidates[0].doubled_area, 200);
    assert_eq!(candidates[1].contour_index, 3);
    assert_eq!(candidates[1].doubled_area, 8);
    assert_eq!(rejected.len(), 2);
    assert_eq!(rejected[0].contour_index, 0);
    assert_eq!(rejected[1].contour_index, 2);
    assert_eq!(select_best_candidate(&candidates), Some(1));
    assert_eq!(select_best_candidate(&vec![]), None);
}

#[test]
fn smallest_candidate_is_the_screen() {
    let outlines = vec![
        vec![p(0, 0), p(400, 0), p(400, 300), p(0, 300)],
        vec![p(110, 100), p(210, 100), p(210, 150), p(110, 150)],
        vec![p(5, 5), p(6, 9), p(9, 9)],
    ];
    let view = locate_screen(&outlines).unwrap();
    assert_eq!(view.corners.top_left, p(110, 100));
    assert_eq!(view.corners.bottom_right, p(210, 150));
    assert_eq!(view.width, 100);
    assert_eq!(view.height, 50);
}

#[test]
fn equal_areas_pick_the_first_candidate() {
    let outlines = vec![
        vec![p(50, 50), p(60, 50), p(60, 60), p(50, 60)],
        vec![p(10, 10), p(20, 10), p(20, 20), p(10, 20)],
    ];
    let view = locate_screen(&outlines).unwrap();
    assert_eq!(view.corners.top_left, p(50, 50));
}

#[test]
fn no_quadrilateral_means_no_screen() {
    let outlines = vec![vec![p(1, 1), p(5, 1), p(5, 5)], vec![]];
    let r = locate_screen(&outlines);
    assert!(matches!(
        r,
        Err(ProcessingError::AppError(ReadingIdentificationError::CouldNotIdentityLCDCandidate))
    ));
    assert!(matches!(
        locate_screen(&vec![]),
        Err(ProcessingError::AppError(ReadingIdentificationError::CouldNotIdentityLCDCandidate))
    ));
}

#[test]
fn screen_extractor_shares_the_session() {
    let debugger = Arc::new(TempFolderDebugger::new(true));
    let extractor = LcdScreenExtractor::new(Arc::clone(&debugger), "trace-7");
    let path = extractor.artifact_path(DebugStage::AfterPerspectiveTransform).unwrap();
    assert_eq!(path.trace, "trace-7");
    assert_eq!(path.file_name, "after_perspective_transform.jpeg");
    let quiet = LcdScreenExtractor::new(Arc::new(TempFolderDebugger::new(false)), "trace-8");
    assert!(quiet.artifact_path(DebugStage::AfterCanny).is_none());
    let view = extractor
        .extract_lcd(&vec![vec![p(10, 10), p(30, 10), p(30, 20), p(10, 20)]])
        .unwrap();
    assert_eq!((view.width, view.height), (20, 10));
}
