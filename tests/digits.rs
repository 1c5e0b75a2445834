use bpm_ocr::digit_extractor::parse_digit;
use bpm_ocr::image::BinaryImage;
use bpm_ocr::lcd_number_extractor::{combine_digits, digits_to_number};
use bpm_ocr::models::{ImageLibraryError, ProcessingError, ReadingIdentificationError, Rect};

const TABLE: [([u8; 7], i32); 10] = [
    ([1, 1, 1, 0, 1, 1, 1], 0),
    ([0, 0, 1, 0, 0, 1, 0], 1),
    ([1, 0, 1, 1, 1, 0, 1], 2),
    ([1, 0, 1, 1, 0, 1, 1], 3),
    ([0, 1, 1, 1, 0, 1, 0], 4),
    ([1, 1, 0, 1, 0, 1, 1], 5),
    ([1, 1, 0, 1, 1, 1, 1], 6),
    ([1, 1, 1, 0, 0, 1, 0], 7),
    ([1, 1, 1, 1, 1, 1, 1], 8),
    ([1, 1, 1, 1, 0, 1, 1], 9),
];

struct Canvas {
    width: usize,
    height: usize,
    pixels: Vec<u8>,
}

impl Canvas {
    fn new(width: usize, height: usize) -> Canvas {
        Canvas { width, height, pixels: vec![0; width * height] }
    }

    fn fill(&mut self, x: usize, y: usize, w: usize, h: usize) {
        for row in y..y + h {
            for col in x..x + w {
                self.pixels[row * self.width + col] = 255;
            }
        }
    }

    /// Draws a 20 by 40 seven-segment glyph with its top-left corner at (x, y).
    fn glyph(&mut self, x: usize, y: usize, segments: [u8; 7]) {
        let regions = [
            (0, 0, 20, 6),
            (0, 0, 5, 20),
            (15, 0, 5, 20),
            (0, 18, 20, 4),
            (0, 20, 5, 20),
            (15, 20, 5, 20),
            (0, 34, 20, 6),
        ];
        for (on, (dx, dy, w, h)) in segments.iter().zip(regions.iter()) {
            if *on == 1 {
                self.fill(x + dx, y + dy, *w, *h);
            }
        }
    }

    fn image(self) -> BinaryImage {
        BinaryImage::new(self.width, self.height, self.pixels).unwrap()
    }
}

fn pattern_of(digit: i32) -> [u8; 7] {
    TABLE[digit as usize].0
}

#[test]
fn each_table_pattern_reads_as_its_digit() {
    for (segments, digit) in TABLE.iter() {
        let mut canvas = Canvas::new(30, 50);
        canvas.glyph(5, 5, *segments);
        let image = canvas.image();
        let r = parse_digit(&image, Rect::new(5, 5, 20, 40));
        assert_eq!(r.unwrap(), *digit);
    }
}

#[test]
fn pattern_outside_table_fails() {
    let absent: [[u8; 7]; 4] = [
        [0, 0, 0, 0, 0, 0, 0],
        [1, 0, 1, 0, 0, 1, 0],
        [0, 0, 0, 1, 0, 0, 0],
        [1, 1, 1, 1, 1, 1, 0],
    ];
    for segments in absent.iter() {
        let mut canvas = Canvas::new(30, 50);
        canvas.glyph(5, 5, *segments);
        let image = canvas.image();
        let r = parse_digit(&image, Rect::new(5, 5, 20, 40));
        assert!(matches!(
            r,
            Err(ProcessingError::AppError(ReadingIdentificationError::CouldNotProcessSegments))
        ));
    }
}

#[test]
fn thin_filled_box_reads_as_one() {
    let mut canvas = Canvas::new(20, 50);
    canvas.fill(5, 5, 8, 40);
    let image = canvas.image();
    assert_eq!(parse_digit(&image, Rect::new(5, 5, 8, 40)).unwrap(), 1);
}

#[test]
fn thin_box_needs_enough_filled_pixels() {
    // 8 by 40 box, only 70% filled: not a one by shape, and its segments match nothing
    let mut canvas = Canvas::new(20, 50);
    canvas.fill(5, 5, 8, 28);
    let image = canvas.image();
    let r = parse_digit(&image, Rect::new(5, 5, 8, 40));
    assert!(matches!(
        r,
        Err(ProcessingError::AppError(ReadingIdentificationError::CouldNotProcessSegments))
    ));
}

#[test]
fn box_outside_image_is_a_library_error() {
    let image = Canvas::new(30, 50).image();
    for rect in [Rect::new(15, 5, 20, 40), Rect::new(-1, 0, 5, 5), Rect::new(0, 0, 5, -5)] {
        let r = parse_digit(&image, rect);
        assert!(matches!(
            r,
            Err(ProcessingError::ImageDetectionLibraryError(ImageLibraryError::RegionOutsideImage))
        ));
    }
}

#[test]
fn image_size_must_match_pixels() {
    assert!(BinaryImage::new(3, 2, vec![0; 6]).is_some());
    assert!(BinaryImage::new(3, 2, vec![0; 5]).is_none());
    assert!(BinaryImage::new(0, 0, vec![]).is_some());
    assert!(BinaryImage::new(0, 3, vec![]).is_some());
    assert!(BinaryImage::new(3, 0, vec![1]).is_none());
    let image = BinaryImage::new(3, 2, vec![0; 6]).unwrap();
    assert_eq!(image.width(), 3);
    assert_eq!(image.height(), 2);
}

#[test]
fn counts_set_pixels_of_a_region() {
    let mut canvas = Canvas::new(10, 10);
    canvas.fill(2, 3, 4, 2);
    let image = canvas.image();
    assert_eq!(image.count_non_zero(0, 0, 10, 10), 8);
    assert_eq!(image.count_non_zero(3, 3, 2, 5), 4);
    assert_eq!(image.count_non_zero(6, 0, 4, 10), 0);
    assert_eq!(image.count_non_zero(2, 3, 0, 0), 0);
}

#[test]
fn three_digits_combine_to_one_two_three() {
    let mut canvas = Canvas::new(90, 50);
    canvas.glyph(5, 5, pattern_of(1));
    canvas.glyph(35, 5, pattern_of(2));
    canvas.glyph(65, 5, pattern_of(3));
    let image = canvas.image();
    let boxes = vec![Rect::new(5, 5, 20, 40), Rect::new(35, 5, 20, 40), Rect::new(65, 5, 20, 40)];
    assert_eq!(digits_to_number(&image, &boxes).unwrap(), 123);
}

#[test]
fn first_failing_digit_fails_the_row() {
    let mut canvas = Canvas::new(90, 50);
    canvas.glyph(5, 5, pattern_of(7));
    canvas.glyph(65, 5, pattern_of(3));
    let image = canvas.image();
    let boxes = vec![Rect::new(5, 5, 20, 40), Rect::new(35, 5, 20, 40), Rect::new(65, 5, 20, 40)];
    assert!(matches!(
        digits_to_number(&image, &boxes),
        Err(ProcessingError::AppError(ReadingIdentificationError::CouldNotProcessSegments))
    ));
    assert_eq!(digits_to_number(&image, &vec![]).unwrap(), 0);
}

#[test]
fn combining_digits() {
    assert_eq!(combine_digits(&vec![1, 2, 3]).unwrap(), 123);
    assert_eq!(combine_digits(&vec![]).unwrap(), 0);
    assert_eq!(combine_digits(&vec![0, 0, 7]).unwrap(), 7);
    assert_eq!(combine_digits(&vec![2, 1, 4, 7, 4, 8, 3, 6, 4, 7]).unwrap(), i32::MAX);
    assert!(matches!(
        combine_digits(&vec![2, 1, 4, 7, 4, 8, 3, 6, 4, 8]),
        Err(ProcessingError::AppError(ReadingIdentificationError::InternalError(_)))
    ));
    assert!(matches!(
        combine_digits(&vec![1, 0, 0, 0, 0, 0, 0, 0, 0, 0, 0]),
        Err(ProcessingError::AppError(ReadingIdentificationError::InternalError(_)))
    ));
}
