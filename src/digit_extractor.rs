use vstd::prelude::*;

use crate::image::{filled_in_region, lemma_image_size, region_inside, BinaryImage, ImageView};
use crate::models::{ImageLibraryError, ProcessingError, ReadingIdentificationError, Rect};

verus! {

/// A segment pattern written as seven 0/1 flags.
pub open spec fn bits7(a: int, b: int, c: int, d: int, e: int, f: int, g: int) -> Seq<bool> {
    seq![a == 1, b == 1, c == 1, d == 1, e == 1, f == 1, g == 1]
}

/// The lit segments of each digit, in the order top, top-left, top-right,
/// middle, bottom-left, bottom-right, bottom.
pub open spec fn segments_of_digit(d: int) -> Seq<bool> {
    if d == 0 {
        bits7(1, 1, 1, 0, 1, 1, 1)
    } else if d == 1 {
        bits7(0, 0, 1, 0, 0, 1, 0)
    } else if d == 2 {
        bits7(1, 0, 1, 1, 1, 0, 1)
    } else if d == 3 {
        bits7(1, 0, 1, 1, 0, 1, 1)
    } else if d == 4 {
        bits7(0, 1, 1, 1, 0, 1, 0)
    } else if d == 5 {
        bits7(1, 1, 0, 1, 0, 1, 1)
    } else if d == 6 {
        bits7(1, 1, 0, 1, 1, 1, 1)
    } else if d == 7 {
        bits7(1, 1, 1, 0, 0, 1, 0)
    } else if d == 8 {
        bits7(1, 1, 1, 1, 1, 1, 1)
    } else {
        bits7(1, 1, 1, 1, 0, 1, 1)
    }
}

/// The first digit from `d` on whose pattern is exactly `p`.
pub open spec fn digit_from(p: Seq<bool>, d: int) -> Option<i32>
    decreases 10 - d,
{
    if d >= 10 {
        None
    } else if p == segments_of_digit(d) {
        Some(d as i32)
    } else {
        digit_from(p, d + 1)
    }
}

/// The digit whose segment pattern is exactly `p`, if any.
pub open spec fn digit_for_pattern(p: Seq<bool>) -> Option<i32> {
    digit_from(p, 0)
}

/// The seven sampled regions of a digit box, as `(x, y, width, height)`, in the
/// order of `segments_of_digit`.
pub open spec fn segment_regions(r: Rect) -> Seq<(int, int, int, int)> {
    let x = r.x as int;
    let y = r.y as int;
    let w = r.width as int;
    let h = r.height as int;
    let seg_w = w / 4;
    let seg_h = h * 15 / 100;
    let centre = h * 5 / 100;
    let half = h / 2;
    seq![
        (x, y, w, seg_h),
        (x, y, seg_w, half),
        (x + w - seg_w, y, seg_w, half),
        (x, y + half - centre, w, 2 * centre),
        (x, y + half, seg_w, h - half),
        (x + w - seg_w, y + half, seg_w, h - half),
        (x, y + h - seg_h, w, seg_h),
    ]
}

/// A segment is lit when more than 55% of its pixels are set.
pub open spec fn region_lit(v: ImageView, q: (int, int, int, int)) -> bool {
    100 * filled_in_region(v, q.0, q.1, q.2, q.3) > 55 * (q.2 * q.3)
}

pub open spec fn segment_pattern(v: ImageView, r: Rect) -> Seq<bool> {
    segment_regions(r).map_values(|q: (int, int, int, int)| region_lit(v, q))
}

pub open spec fn box_inside(v: ImageView, r: Rect) -> bool {
    region_inside(v, r.x as int, r.y as int, r.width as int, r.height as int)
}

/// A narrow box (width under 30% of height) more than 77% filled is a one.
pub open spec fn is_thin_one(v: ImageView, r: Rect) -> bool {
    let filled = filled_in_region(v, r.x as int, r.y as int, r.width as int, r.height as int);
    &&& 100 * filled > 77 * (r.width * r.height)
    &&& 10 * r.width < 3 * r.height
}

/// The digit in box `r`: a thin one, or the digit whose pattern its segments show.
pub open spec fn decoded_digit(v: ImageView, r: Rect) -> Option<i32> {
    if is_thin_one(v, r) {
        Some(1)
    } else {
        digit_for_pattern(segment_pattern(v, r))
    }
}

/// What reading the digit in box `r` of image `v` gives.
pub open spec fn digit_outcome(v: ImageView, r: Rect) -> Result<i32, ProcessingError> {
    if !box_inside(v, r) {
        Err(
            ProcessingError::ImageDetectionLibraryError(ImageLibraryError::RegionOutsideImage),
        )
    } else {
        match decoded_digit(v, r) {
            Some(d) => Ok(d),
            None => Err(ProcessingError::AppError(ReadingIdentificationError::CouldNotProcessSegments)),
        }
    }
}

proof fn lemma_patterns_differ(d: int, k: int)
    requires
        0 <= k < d < 10,
    ensures
        segments_of_digit(d) != segments_of_digit(k),
{
    let a = segments_of_digit(d);
    let b = segments_of_digit(k);
    if a == b {
        assert(a[0] == b[0] && a[1] == b[1] && a[2] == b[2] && a[3] == b[3] && a[4] == b[4]
            && a[5] == b[5] && a[6] == b[6]);
    }
}

proof fn lemma_digit_from_skips(d: int, k: int)
    requires
        0 <= k <= d < 10,
    ensures
        digit_from(segments_of_digit(d), k) == Some(d as i32),
    decreases d - k,
{
    if k < d {
        lemma_patterns_differ(d, k);
        lemma_digit_from_skips(d, k + 1);
    }
}

proof fn lemma_digit_from_none(p: Seq<bool>, k: int)
    requires
        0 <= k <= 10,
    ensures
        digit_from(p, k) is None <==> forall|d: int| k <= d < 10 ==> p != segments_of_digit(d),
    decreases 10 - k,
{
    if k < 10 {
        lemma_digit_from_none(p, k + 1);
        if p != segments_of_digit(k) {
            assert forall|d: int| k <= d < 10 && (forall|e: int| k + 1 <= e < 10 ==> p != segments_of_digit(e))
                implies p != segments_of_digit(d) by {
                if d > k {
                    assert(k + 1 <= d < 10);
                }
            }
        }
    }
}

/// The segment table is exact: each of the ten digit patterns reads as its own
/// digit, and a pattern outside the table reads as no digit.
pub proof fn lemma_segment_table_exact(p: Seq<bool>)
    ensures
        forall|d: int| 0 <= d < 10 ==> #[trigger] digit_for_pattern(segments_of_digit(d)) == Some(d as i32),
        digit_for_pattern(p) is None <==> forall|d: int| 0 <= d < 10 ==> p != #[trigger] segments_of_digit(d),
{
    assert forall|d: int| 0 <= d < 10 implies #[trigger] digit_for_pattern(segments_of_digit(d)) == Some(d as i32) by {
        lemma_digit_from_skips(d, 0);
    }
    lemma_digit_from_none(p, 0);
}

/// A digit box that is not a thin one reads as the digit whose pattern its seven
/// segments show, and fails with `CouldNotProcessSegments` when no digit has that pattern.
pub proof fn lemma_segment_patterns_read_exactly(v: ImageView, r: Rect)
    requires
        box_inside(v, r),
        !is_thin_one(v, r),
    ensures
        forall|d: int|
            0 <= d < 10 && segment_pattern(v, r) == #[trigger] segments_of_digit(d) ==> digit_outcome(v, r) == Ok::<i32, ProcessingError>(d as i32),
        (forall|d: int| 0 <= d < 10 ==> segment_pattern(v, r) != #[trigger] segments_of_digit(d))
            ==> digit_outcome(v, r) == Err::<i32, ProcessingError>(
            ProcessingError::AppError(ReadingIdentificationError::CouldNotProcessSegments),
        ),
{
    lemma_segment_table_exact(segment_pattern(v, r));
}

/// A narrow, mostly filled box reads as a one whatever its segments show.
pub proof fn lemma_thin_box_reads_one(v: ImageView, r: Rect)
    requires
        box_inside(v, r),
        is_thin_one(v, r),
    ensures
        digit_outcome(v, r) == Ok::<i32, ProcessingError>(1),
{
}

proof fn lemma_digit_from_range(p: Seq<bool>, k: int)
    requires
        0 <= k,
    ensures
        digit_from(p, k) matches Some(d) ==> 0 <= d <= 9 && k <= d,
    decreases 10 - k,
{
    if k < 10 && p != segments_of_digit(k) {
        lemma_digit_from_range(p, k + 1);
    }
}

/// A digit read from a box is a decimal digit.
pub proof fn lemma_decoded_digit_range(v: ImageView, r: Rect)
    ensures
        digit_outcome(v, r) matches Ok(d) ==> 0 <= d <= 9,
{
    lemma_digit_from_range(segment_pattern(v, r), 0);
}

fn segment_row(d: i32) -> (r: Vec<bool>)
    requires
        0 <= d < 10,
    ensures
        r@ == segments_of_digit(d as int),
{
    let r = match d {
        0 => vec![true, true, true, false, true, true, true],
        1 => vec![false, false, true, false, false, true, false],
        2 => vec![true, false, true, true, true, false, true],
        3 => vec![true, false, true, true, false, true, true],
        4 => vec![false, true, true, true, false, true, false],
        5 => vec![true, true, false, true, false, true, true],
        6 => vec![true, true, false, true, true, true, true],
        7 => vec![true, true, true, false, false, true, false],
        8 => vec![true, true, true, true, true, true, true],
        _ => vec![true, true, true, true, false, true, true],
    };
    proof {
        assert(r@ =~= segments_of_digit(d as int));
    }
    r
}

fn same_pattern(a: &Vec<bool>, b: &Vec<bool>) -> (r: bool)
    ensures
        r == (a@ == b@),
{
    if a.len() != b.len() {
        return false;
    }
    let mut i: usize = 0;
    while i < a.len()
        invariant
            a@.len() == b@.len(),
            i <= a.len(),
            forall|k: int| 0 <= k < i ==> a@[k] == b@[k],
        decreases a.len() - i,
    {
        if a[i] != b[i] {
            return false;
        }
        i = i + 1;
    }
    proof {
        assert(a@ =~= b@);
    }
    true
}

/// Looks a segment pattern up in the table of the ten digits.
fn digit_for_segments(lit: &Vec<bool>) -> (r: Option<i32>)
    ensures
        r == digit_for_pattern(lit@),
{
    let mut d: i32 = 0;
    while d < 10
        invariant
            0 <= d <= 10,
            digit_for_pattern(lit@) == digit_from(lit@, d as int),
        decreases 10 - d,
    {
        let row = segment_row(d);
        if same_pattern(lit, &row) {
            return Some(d);
        }
        d = d + 1;
    }
    None
}

fn region_lit_in(image: &BinaryImage, x: u64, y: u64, w: u64, h: u64) -> (r: bool)
    requires
        region_inside(image@, x as int, y as int, w as int, h as int),
    ensures
        r == region_lit(image@, (x as int, y as int, w as int, h as int)),
{
    proof {
        lemma_image_size(image);
    }
    let filled = image.count_non_zero(x as usize, y as usize, w as usize, h as usize);
    (filled as u128) * 100 > 55 * ((w as u128) * (h as u128))
}

/// Reads the seven-segment digit in box `full_digit_location` of a binarised image.
pub fn parse_digit(image: &BinaryImage, full_digit_location: Rect) -> (r: Result<
    i32,
    ProcessingError,
>)
    ensures
        r == digit_outcome(image@, full_digit_location),
{
    let loc = full_digit_location;
    proof {
        lemma_image_size(image);
    }
    if loc.x < 0 || loc.y < 0 || loc.width < 0 || loc.height < 0 {
        return Err(
            ProcessingError::ImageDetectionLibraryError(ImageLibraryError::RegionOutsideImage),
        );
    }
    let x = loc.x as u64;
    let y = loc.y as u64;
    let w = loc.width as u64;
    let h = loc.height as u64;
    if x + w > image.width() as u64 || y + h > image.height() as u64 {
        return Err(
            ProcessingError::ImageDetectionLibraryError(ImageLibraryError::RegionOutsideImage),
        );
    }
    let total_filled_in_area = image.count_non_zero(x as usize, y as usize, w as usize, h as usize);
    let total_area = (w as u128) * (h as u128);
    if (total_filled_in_area as u128) * 100 > 77 * total_area && 10 * w < 3 * h {
        return Ok(1);
    }
    let seg_w = w / 4;
    let seg_h = h * 15 / 100;
    let centre = h * 5 / 100;
    let half = h / 2;
    let mut lit: Vec<bool> = Vec::new();
    lit.push(region_lit_in(image, x, y, w, seg_h));
    lit.push(region_lit_in(image, x, y, seg_w, half));
    lit.push(region_lit_in(image, x + w - seg_w, y, seg_w, half));
    lit.push(region_lit_in(image, x, y + half - centre, w, 2 * centre));
    lit.push(region_lit_in(image, x, y + half, seg_w, h - half));
    lit.push(region_lit_in(image, x + w - seg_w, y + half, seg_w, h - half));
    lit.push(region_lit_in(image, x, y + h - seg_h, w, seg_h));
    proof {
        let v = image@;
        let q = segment_regions(loc);
        assert(lit@ =~= segment_pattern(v, loc)) by {
            assert(q[0] == (x as int, y as int, w as int, seg_h as int));
            assert(q[6] == (x as int, (y + h - seg_h) as int, w as int, seg_h as int));
        }
    }
    match digit_for_segments(&lit) {
        Some(d) => Ok(d),
        None => Err(ProcessingError::AppError(ReadingIdentificationError::CouldNotProcessSegments)),
    }
}

} // verus!
