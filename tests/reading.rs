use bpm_ocr::debug::{BpmOcrDebugOutputter, DebugStage, NoDebug, TempFolderDebugger};
use bpm_ocr::image::BinaryImage;
use bpm_ocr::lcd_number_extractor::{
    extract_reading, get_digit_borders, get_reading_locations, group_by_similar_y_coordinate,
};
use bpm_ocr::models::{
    BloodPressureReading, DebuggerTrace, ImageLibraryError, Point, ProcessingError,
    ReadingIdentificationError, Rect,
};
use bpm_ocr::{BloodPressureReadingExtractor, ExtractionEvent, ExtractionState};

const TABLE: [[u8; 7]; 10] = [
    [1, 1, 1, 0, 1, 1, 1],
    [0, 0, 1, 0, 0, 1, 0],
    [1, 0, 1, 1, 1, 0, 1],
    [1, 0, 1, 1, 0, 1, 1],
    [0, 1, 1, 1, 0, 1, 0],
    [1, 1, 0, 1, 0, 1, 1],
    [1, 1, 0, 1, 1, 1, 1],
    [1, 1, 1, 0, 0, 1, 0],
    [1, 1, 1, 1, 1, 1, 1],
    [1, 1, 1, 1, 0, 1, 1],
];

fn draw_glyph(pixels: &mut Vec<u8>, width: usize, x: usize, y: usize, digit: usize) {
    let regions = [
        (0, 0, 20, 6),
        (0, 0, 5, 20),
        (15, 0, 5, 20),
        (0, 18, 20, 4),
        (0, 20, 5, 20),
        (15, 20, 5, 20),
        (0, 34, 20, 6),
    ];
    for (on, (dx, dy, w, h)) in TABLE[digit].iter().zip(regions.iter()) {
        if *on == 1 {
            for row in y + dy..y + dy + h {
                for col in x + dx..x + dx + w {
                    pixels[row * width + col] = 255;
                }
            }
        }
    }
}

/// A display showing 133 / 93 / 65, and the bounding boxes of its contours,
/// noise included.
fn display() -> (BinaryImage, Vec<Rect>) {
    let (width, height) = (100, 190);
    let mut pixels = vec![0u8; width * height];
    let rows: [(usize, &[(usize, usize)]); 3] = [
        (10, &[(10, 1), (40, 3), (70, 3)]),
        (70, &[(40, 9), (70, 3)]),
        (130, &[(40, 6), (70, 5)]),
    ];
    let mut boxes = Vec::new();
    for (y, glyphs) in rows.iter() {
        for (x, digit) in glyphs.iter() {
            draw_glyph(&mut pixels, width, *x, *y, *digit);
        }
    }
    // contours come in no particular order, with a frame and some specks
    boxes.push(Rect::new(0, 0, 100, 190));
    boxes.push(Rect::new(70, 131, 20, 40));
    boxes.push(Rect::new(40, 10, 20, 40));
    boxes.push(Rect::new(5, 100, 3, 12));
    boxes.push(Rect::new(70, 70, 20, 40));
    boxes.push(Rect::new(10, 11, 20, 40));
    boxes.push(Rect::new(40, 130, 20, 40));
    boxes.push(Rect::new(70, 10, 20, 40));
    boxes.push(Rect::new(40, 72, 20, 40));
    (BinaryImage::new(width, height, pixels).unwrap(), boxes)
}

#[test]
fn digit_borders_drop_edges_and_short_boxes() {
    let boxes = vec![
        Rect::new(0, 10, 20, 40),
        Rect::new(10, 0, 20, 40),
        Rect::new(10, 10, 20, 30),
        Rect::new(10, 10, 20, 31),
        Rect::new(50, 60, 5, 45),
    ];
    assert_eq!(
        get_digit_borders(&boxes),
        vec![Rect::new(10, 10, 20, 31), Rect::new(50, 60, 5, 45)]
    );
    assert_eq!(get_digit_borders(&vec![]), vec![]);
}

#[test]
fn grouping_follows_the_first_box_of_each_row() {
    let boxes = vec![
        Rect::new(1, 10, 5, 5),
        Rect::new(2, 14, 5, 5),
        Rect::new(3, 15, 5, 5),
        Rect::new(4, 11, 5, 5),
        Rect::new(5, 19, 5, 5),
    ];
    let groups = group_by_similar_y_coordinate(&boxes, 5);
    assert_eq!(groups.len(), 2);
    assert_eq!(groups[0], vec![Rect::new(1, 10, 5, 5), Rect::new(2, 14, 5, 5), Rect::new(4, 11, 5, 5)]);
    assert_eq!(groups[1], vec![Rect::new(3, 15, 5, 5), Rect::new(5, 19, 5, 5)]);
    assert_eq!(group_by_similar_y_coordinate(&vec![], 5).len(), 0);
}

#[test]
fn three_clusters_make_three_rows() {
    let digits = vec![
        Rect::new(70, 201, 20, 40),
        Rect::new(40, 12, 20, 40),
        Rect::new(70, 100, 20, 40),
        Rect::new(10, 10, 20, 40),
        Rect::new(40, 202, 20, 40),
        Rect::new(40, 103, 20, 40),
        Rect::new(70, 11, 20, 40),
    ];
    let locations = get_reading_locations(digits).unwrap();
    assert_eq!(
        locations.systolic_region,
        vec![Rect::new(10, 10, 20, 40), Rect::new(40, 12, 20, 40), Rect::new(70, 11, 20, 40)]
    );
    assert_eq!(
        locations.diastolic_region,
        vec![Rect::new(40, 103, 20, 40), Rect::new(70, 100, 20, 40)]
    );
    assert_eq!(
        locations.pulse_region,
        vec![Rect::new(40, 202, 20, 40), Rect::new(70, 201, 20, 40)]
    );
}

#[test]
fn stray_box_makes_a_fourth_row() {
    let digits = vec![
        Rect::new(10, 10, 20, 40),
        Rect::new(40, 12, 20, 40),
        Rect::new(40, 100, 20, 40),
        Rect::new(70, 101, 20, 40),
        Rect::new(40, 200, 20, 40),
        Rect::new(70, 150, 20, 40),
    ];
    assert!(matches!(
        get_reading_locations(digits),
        Err(ProcessingError::AppError(ReadingIdentificationError::UnexpectedNumberOfRows))
    ));
    assert!(matches!(
        get_reading_locations(vec![Rect::new(1, 1, 1, 1), Rect::new(1, 50, 1, 1)]),
        Err(ProcessingError::AppError(ReadingIdentificationError::UnexpectedNumberOfRows))
    ));
}

#[test]
fn reading_of_a_synthetic_display() {
    let (image, boxes) = display();
    let reading = extract_reading(&image, &boxes).unwrap();
    assert_eq!(reading, BloodPressureReading { systolic: 133, diastolic: 93, pulse: 65 });
}

fn screen_outlines() -> Vec<Vec<Point>> {
    vec![
        vec![Point::new(0, 0), Point::new(799, 0), Point::new(799, 799), Point::new(0, 799)],
        vec![Point::new(200, 300), Point::new(300, 300), Point::new(300, 490), Point::new(200, 490)],
        vec![Point::new(1, 2), Point::new(3, 4), Point::new(5, 1)],
    ]
}

#[test]
fn extraction_runs_screen_then_digits() {
    let extractor = BloodPressureReadingExtractor::new(DebuggerTrace::no_debug_session());
    let state = extractor.advance(
        ExtractionState::LocatingScreen,
        ExtractionEvent::ScreenOutlines(screen_outlines()),
    );
    let view = match state {
        ExtractionState::ReadingDigits(view) => view,
        _ => panic!("screen not located"),
    };
    assert_eq!(view.corners.top_left, Point::new(200, 300));
    assert_eq!(view.width, 100);
    assert_eq!(view.height, 190);
    let (image, boxes) = display();
    let state = extractor.advance(
        ExtractionState::ReadingDigits(view),
        ExtractionEvent::DigitCandidates(image, boxes),
    );
    match state {
        ExtractionState::Finished(Ok(reading)) => {
            assert_eq!(reading, BloodPressureReading { systolic: 133, diastolic: 93, pulse: 65 })
        }
        _ => panic!("reading not finished"),
    }
}

#[test]
fn same_input_gives_same_result_twice() {
    let extractor = BloodPressureReadingExtractor::new(DebuggerTrace::no_debug_session());
    let mut results = Vec::new();
    for _ in 0..2 {
        let mut state = ExtractionState::LocatingScreen;
        state = extractor.advance(state, ExtractionEvent::ScreenOutlines(screen_outlines()));
        let (image, boxes) = display();
        state = extractor.advance(state, ExtractionEvent::DigitCandidates(image, boxes));
        match state {
            ExtractionState::Finished(Ok(reading)) => results.push(reading),
            _ => panic!("reading not finished"),
        }
    }
    assert_eq!(results[0], results[1]);
    assert_eq!(bpm_ocr::RESIZED_WIDTH, 800);
    assert_eq!(bpm_ocr::RESIZED_HEIGHT, 800);
}

#[test]
fn screen_failure_never_reaches_digits() {
    let extractor = BloodPressureReadingExtractor::new(DebuggerTrace::no_debug_session());
    let mut digit_extractions = 0;
    let mut state = extractor.advance(
        ExtractionState::LocatingScreen,
        ExtractionEvent::ScreenOutlines(vec![vec![Point::new(1, 1), Point::new(4, 4), Point::new(1, 7)]]),
    );
    for _ in 0..3 {
        if let ExtractionState::ReadingDigits(_) = state {
            digit_extractions += 1;
        }
        let (image, boxes) = display();
        state = extractor.advance(state, ExtractionEvent::DigitCandidates(image, boxes));
    }
    assert_eq!(digit_extractions, 0);
    assert!(matches!(
        state,
        ExtractionState::Finished(Err(ProcessingError::AppError(
            ReadingIdentificationError::CouldNotIdentityLCDCandidate
        )))
    ));
}

#[test]
fn library_failure_and_out_of_order_events_end_extraction() {
    let extractor = BloodPressureReadingExtractor::new(DebuggerTrace::no_debug_session());
    let failure = ImageLibraryError::Reported { code: -215, message: "assertion failed".to_string() };
    let state = extractor.advance(ExtractionState::LocatingScreen, ExtractionEvent::LibraryFailure(failure));
    match state {
        ExtractionState::Finished(Err(ProcessingError::ImageDetectionLibraryError(
            ImageLibraryError::Reported { code, .. },
        ))) => assert_eq!(code, -215),
        _ => panic!("library failure not reported"),
    }
    let (image, boxes) = display();
    let state = extractor.advance(
        ExtractionState::LocatingScreen,
        ExtractionEvent::DigitCandidates(image, boxes),
    );
    assert!(matches!(
        state,
        ExtractionState::Finished(Err(ProcessingError::AppError(
            ReadingIdentificationError::InternalError(_)
        )))
    ));
}

#[test]
fn no_debug_session_keeps_nothing() {
    let session = DebuggerTrace::no_debug_session();
    assert_eq!(session.unique_trace_name, "");
    assert!(!session.debugger.debug_enabled());
    let stages = [
        DebugStage::OriginalPicture,
        DebugStage::AfterCanny,
        DebugStage::LcdContourCandidates,
        DebugStage::AfterPerspectiveTransform,
        DebugStage::DigitsBeforeMorph,
        DebugStage::DigitsAfterDilation,
        DebugStage::DigitLocations,
    ];
    for stage in stages {
        assert!(session.debugger.artifact_path("any", stage).is_none());
    }
    let extractor = BloodPressureReadingExtractor::new(session);
    assert!(extractor.artifact_path(DebugStage::AfterCanny).is_none());
    assert!(!NoDebug::new(true).debug_enabled());
}

#[test]
fn temp_folder_paths() {
    let session = DebuggerTrace::temp_folder_session("run-1");
    assert_eq!(session.unique_trace_name, "run-1");
    let first = session.debugger.artifact_path("run-1", DebugStage::DigitLocations).unwrap();
    let again = session.debugger.artifact_path("run-1", DebugStage::DigitLocations).unwrap();
    assert_eq!(first.folder, "bpm-ocr");
    assert_eq!(first.trace, "run-1");
    assert_eq!(first.file_name, "digit_locations.jpeg");
    assert_eq!(
        (first.folder.clone(), first.trace.clone(), first.file_name.clone()),
        (again.folder, again.trace, again.file_name)
    );
    let other = session.debugger.artifact_path("run-2", DebugStage::DigitLocations).unwrap();
    assert_ne!(first.trace, other.trace);
    let extractor = BloodPressureReadingExtractor::new(session);
    let p = extractor.artifact_path(DebugStage::OriginalPicture).unwrap();
    assert_eq!(p.trace, "run-1");
    assert_eq!(p.file_name, "original_image.jpeg");
    assert!(!TempFolderDebugger::new(false).debug_enabled());
    assert!(TempFolderDebugger::new(false).artifact_path("x", DebugStage::AfterCanny).is_none());
}

#[test]
fn generated_trace_names_are_uuids() {
    let bytes: [u8; 16] = [70, 235, 208, 238, 14, 109, 67, 201, 185, 13, 204, 195, 90, 145, 63, 62];
    let a = DebuggerTrace::temp_folder_session_uuid(bytes);
    assert!(a.debugger.debug_enabled());
    assert_eq!(a.unique_trace_name, "46ebd0ee-0e6d-43c9-b90d-ccc35a913f3e");
    let zero = DebuggerTrace::temp_folder_session_uuid([0; 16]);
    assert_eq!(zero.unique_trace_name, "00000000-0000-4000-8000-000000000000");
    let ones = DebuggerTrace::temp_folder_session_uuid([0xff; 16]);
    assert_eq!(ones.unique_trace_name, "ffffffff-ffff-4fff-bfff-ffffffffffff");
    let mut other = bytes;
    other[15] = 63;
    assert_ne!(DebuggerTrace::temp_folder_session_uuid(other).unique_trace_name, a.unique_trace_name);
}
