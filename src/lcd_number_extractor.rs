use vstd::prelude::*;

use crate::digit_extractor::{digit_outcome, lemma_decoded_digit_range, parse_digit};
use crate::image::{BinaryImage, ImageView};
use crate::models::{
    BloodPressureReading, ProcessingError, ReadingIdentificationError, ReadingLocations, Rect,
};
use crate::sorting::{rect_edge_key, rect_x_key, rect_y_key, sort_by_key, sort_rects, RectEdge};

verus! {

/// Boxes whose top edges differ by less than this many pixels share a row.
pub const ROW_THRESHOLD: i32 = 5;

/// Boxes no taller than this are noise.
pub const MIN_DIGIT_HEIGHT: i32 = 30;

pub const NUMBER_TOO_LARGE: &'static str = "Unexpected number conversion issue";

/// A box is kept as a digit when it touches neither the left nor the top edge of
/// the image and is taller than `MIN_DIGIT_HEIGHT`.
pub open spec fn is_digit_border(r: Rect) -> bool {
    r.y != 0 && r.x != 0 && r.height > MIN_DIGIT_HEIGHT
}

pub open spec fn digit_border_pred() -> spec_fn(Rect) -> bool {
    |r: Rect| is_digit_border(r)
}

/// Whether `d` joins the row whose first box is the first of `g`.
pub open spec fn leader_close(g: Seq<Rect>, d: Rect, threshold: int) -> bool {
    g.len() > 0 && -threshold < g[0].y - d.y < threshold
}

/// Index of the first row that `d` joins; the number of rows when there is none.
pub open spec fn first_close_group(groups: Seq<Seq<Rect>>, d: Rect, threshold: int) -> int
    decreases groups.len(),
{
    if groups.len() == 0 {
        0
    } else if leader_close(groups[0], d, threshold) {
        0
    } else {
        1 + first_close_group(groups.skip(1), d, threshold)
    }
}

/// Adds `d` to the first row it joins, or starts a new row with it.
pub open spec fn place_in_groups(groups: Seq<Seq<Rect>>, d: Rect, threshold: int) -> Seq<
    Seq<Rect>,
> {
    let i = first_close_group(groups, d, threshold);
    if i < groups.len() {
        groups.update(i, groups[i].push(d))
    } else {
        groups.push(seq![d])
    }
}

/// The rows that walking `s` in order and placing each box produces.
pub open spec fn group_by_y(s: Seq<Rect>, threshold: int) -> Seq<Seq<Rect>>
    decreases s.len(),
{
    if s.len() == 0 {
        Seq::empty()
    } else {
        place_in_groups(group_by_y(s.drop_last(), threshold), s.last(), threshold)
    }
}

pub open spec fn rows_view(groups: Seq<Vec<Rect>>) -> Seq<Seq<Rect>> {
    groups.map_values(|g: Vec<Rect>| g@)
}

/// The rows of a set of digit boxes, top to bottom, each ordered left to right.
pub open spec fn reading_rows(digits: Seq<Rect>) -> Seq<Seq<Rect>> {
    group_by_y(sort_by_key(digits, rect_y_key()), ROW_THRESHOLD as int).map_values(
        |g: Seq<Rect>| sort_by_key(g, rect_x_key()),
    )
}

pub open spec fn locations_outcome(digits: Seq<Rect>) -> Result<Seq<Seq<Rect>>, ProcessingError> {
    if reading_rows(digits).len() == 3 {
        Ok(reading_rows(digits))
    } else {
        Err(ProcessingError::AppError(ReadingIdentificationError::UnexpectedNumberOfRows))
    }
}

/// The digits read from boxes `s`, left to right; the first failure in that order.
pub open spec fn decode_digits(v: ImageView, s: Seq<Rect>) -> Result<Seq<i32>, ProcessingError>
    decreases s.len(),
{
    if s.len() == 0 {
        Ok(Seq::empty())
    } else {
        match decode_digits(v, s.drop_last()) {
            Err(e) => Err(e),
            Ok(ds) => match digit_outcome(v, s.last()) {
                Err(e) => Err(e),
                Ok(d) => Ok(ds.push(d)),
            },
        }
    }
}

/// The number written by decimal digits `ds`, most significant first.
pub open spec fn positional_value(ds: Seq<i32>) -> int
    decreases ds.len(),
{
    if ds.len() == 0 {
        0
    } else {
        10 * positional_value(ds.drop_last()) + ds.last()
    }
}

pub open spec fn pow10(n: nat) -> int
    decreases n,
{
    if n == 0 {
        1
    } else {
        10 * pow10((n - 1) as nat)
    }
}

/// `ds[0] * 10^(n-1) + ds[1] * 10^(n-2) + ... + ds[n-1]`.
pub open spec fn weighted_digit_sum(ds: Seq<i32>) -> int
    decreases ds.len(),
{
    if ds.len() == 0 {
        0
    } else {
        ds[0] * pow10((ds.len() - 1) as nat) + weighted_digit_sum(ds.skip(1))
    }
}

pub open spec fn is_decimal_digits(ds: Seq<i32>) -> bool {
    forall|i: int| 0 <= i < ds.len() ==> 0 <= #[trigger] ds[i] <= 9
}

/// The number of decimal digits `ds`; an internal error when it does not fit in an `i32`.
pub open spec fn combine_outcome(ds: Seq<i32>) -> Result<i32, ProcessingError> {
    if positional_value(ds) <= i32::MAX {
        Ok(positional_value(ds) as i32)
    } else {
        Err(ProcessingError::AppError(ReadingIdentificationError::InternalError(NUMBER_TOO_LARGE)))
    }
}

/// The number shown by one row of digit boxes.
pub open spec fn row_outcome(v: ImageView, s: Seq<Rect>) -> Result<i32, ProcessingError> {
    match decode_digits(v, s) {
        Err(e) => Err(e),
        Ok(ds) => combine_outcome(ds),
    }
}

/// The reading shown by an image whose external contours have bounding boxes `boxes`.
pub open spec fn reading_outcome(v: ImageView, boxes: Seq<Rect>) -> Result<
    BloodPressureReading,
    ProcessingError,
> {
    match locations_outcome(boxes.filter(digit_border_pred())) {
        Err(e) => Err(e),
        Ok(rows) => match row_outcome(v, rows[0]) {
            Err(e) => Err(e),
            Ok(systolic) => match row_outcome(v, rows[1]) {
                Err(e) => Err(e),
                Ok(diastolic) => match row_outcome(v, rows[2]) {
                    Err(e) => Err(e),
                    Ok(pulse) => Ok(BloodPressureReading { systolic, diastolic, pulse }),
                },
            },
        },
    }
}

/// Keeps the bounding boxes that can be digits, in their order.
pub fn get_digit_borders(bounding_boxes: &Vec<Rect>) -> (r: Vec<Rect>)
    ensures
        r@ == bounding_boxes@.filter(digit_border_pred()),
{
    let mut predicted_digits: Vec<Rect> = Vec::new();
    let mut i: usize = 0;
    while i < bounding_boxes.len()
        invariant
            i <= bounding_boxes.len(),
            predicted_digits@ == bounding_boxes@.take(i as int).filter(digit_border_pred()),
        decreases bounding_boxes.len() - i,
    {
        let rect = bounding_boxes[i];
        proof {
            assert(bounding_boxes@.take(i as int + 1) =~= bounding_boxes@.take(i as int).push(
                rect,
            ));
            bounding_boxes@.take(i as int).lemma_filter_push(rect, digit_border_pred());
        }
        if rect.y != 0 && rect.x != 0 && rect.height > MIN_DIGIT_HEIGHT {
            predicted_digits.push(rect);
        }
        i = i + 1;
    }
    proof {
        assert(bounding_boxes@.take(bounding_boxes.len() as int) =~= bounding_boxes@);
    }
    predicted_digits
}

proof fn lemma_first_close_group(groups: Seq<Seq<Rect>>, d: Rect, threshold: int, j: int)
    requires
        0 <= j <= groups.len(),
        forall|k: int| 0 <= k < j ==> !leader_close(#[trigger] groups[k], d, threshold),
        j < groups.len() ==> leader_close(groups[j], d, threshold),
    ensures
        first_close_group(groups, d, threshold) == j,
    decreases groups.len(),
{
    if groups.len() > 0 && j > 0 {
        assert(!leader_close(groups[0], d, threshold));
        let rest = groups.skip(1);
        assert forall|k: int| 0 <= k < j - 1 implies !leader_close(#[trigger] rest[k], d, threshold) by {
            assert(rest[k] == groups[k + 1]);
        }
        if j < groups.len() {
            assert(rest[j - 1] == groups[j]);
        }
        lemma_first_close_group(rest, d, threshold, j - 1);
    }
}

fn find_group(groups: &Vec<Vec<Rect>>, d: Rect, threshold: i32) -> (j: usize)
    ensures
        j == first_close_group(rows_view(groups@), d, threshold as int),
        j <= groups@.len(),
{
    let ghost rows = rows_view(groups@);
    let mut j: usize = 0;
    while j < groups.len()
        invariant
            j <= groups@.len(),
            rows == rows_view(groups@),
            forall|k: int| 0 <= k < j ==> !leader_close(#[trigger] rows[k], d, threshold as int),
        decreases groups.len() - j,
    {
        let group = &groups[j];
        if group.len() > 0 {
            let diff: i64 = group[0].y as i64 - d.y as i64;
            let distance: i64 = if diff < 0 {
                -diff
            } else {
                diff
            };
            if distance < threshold as i64 {
                proof {
                    lemma_first_close_group(rows, d, threshold as int, j as int);
                }
                return j;
            }
        }
        j = j + 1;
    }
    proof {
        lemma_first_close_group(rows, d, threshold as int, j as int);
    }
    j
}

/// Walks the boxes in order and puts each one in the first row whose first box
/// has a top edge less than `difference_threshold` pixels away, or in a new row.
pub fn group_by_similar_y_coordinate(digits: &Vec<Rect>, difference_threshold: i32) -> (r: Vec<
    Vec<Rect>,
>)
    ensures
        rows_view(r@) == group_by_y(digits@, difference_threshold as int),
{
    let ghost t = difference_threshold as int;
    let mut groups: Vec<Vec<Rect>> = Vec::new();
    let mut i: usize = 0;
    proof {
        assert(rows_view(groups@) =~= group_by_y(digits@.take(0), t));
    }
    while i < digits.len()
        invariant
            i <= digits.len(),
            t == difference_threshold,
            rows_view(groups@) == group_by_y(digits@.take(i as int), t),
        decreases digits.len() - i,
    {
        let d = digits[i];
        let ghost before = rows_view(groups@);
        let j = find_group(&groups, d, difference_threshold);
        proof {
            assert(digits@.take(i as int + 1).drop_last() =~= digits@.take(i as int));
        }
        if j < groups.len() {
            let mut group = groups.remove(j);
            group.push(d);
            groups.insert(j, group);
            proof {
                assert(rows_view(groups@) =~= before.update(j as int, before[j as int].push(d)));
            }
        } else {
            let mut group: Vec<Rect> = Vec::new();
            group.push(d);
            proof {
                assert(group@ =~= seq![d]);
            }
            groups.push(group);
            proof {
                assert(rows_view(groups@) =~= before.push(seq![d]));
            }
        }
        i = i + 1;
    }
    proof {
        assert(digits@.take(digits.len() as int) =~= digits@);
    }
    groups
}

/// Groups the digit boxes into the three rows of the display: systolic on top,
/// then diastolic, then pulse, each ordered left to right.
pub fn get_reading_locations(digits: Vec<Rect>) -> (r: Result<ReadingLocations, ProcessingError>)
    ensures
        match locations_outcome(digits@) {
            Ok(rows) => r matches Ok(loc) && loc.systolic_region@ == rows[0]
                && loc.diastolic_region@ == rows[1] && loc.pulse_region@ == rows[2],
            Err(e) => r == Err::<ReadingLocations, ProcessingError>(e),
        },
{
    let sorted = sort_rects(digits, RectEdge::Top);
    proof {
        assert(rect_edge_key(RectEdge::Top) == rect_y_key());
    }
    let grouped_by_y_coordinate = group_by_similar_y_coordinate(&sorted, ROW_THRESHOLD);
    let ghost grouped = rows_view(grouped_by_y_coordinate@);
    let mut rows: Vec<Vec<Rect>> = Vec::new();
    let mut i: usize = 0;
    while i < grouped_by_y_coordinate.len()
        invariant
            i <= grouped_by_y_coordinate@.len(),
            grouped == rows_view(grouped_by_y_coordinate@),
            rows@.len() == i,
            forall|k: int|
                0 <= k < i ==> (#[trigger] rows@[k])@ == sort_by_key(grouped[k], rect_x_key()),
        decreases grouped_by_y_coordinate.len() - i,
    {
        let row = sort_rects(grouped_by_y_coordinate[i].clone(), RectEdge::Left);
        proof {
            assert(rect_edge_key(RectEdge::Left) == rect_x_key());
        }
        rows.push(row);
        i = i + 1;
    }
    let ghost expected = reading_rows(digits@);
    proof {
        assert(rows_view(rows@) =~= expected);
    }
    if rows.len() != 3 {
        return Err(ProcessingError::AppError(ReadingIdentificationError::UnexpectedNumberOfRows));
    }
    let pulse = rows.pop().unwrap();
    let diastolic = rows.pop().unwrap();
    let systolic = rows.pop().unwrap();
    Ok(
        ReadingLocations {
            systolic_region: systolic,
            diastolic_region: diastolic,
            pulse_region: pulse,
        },
    )
}

/// Reading digits left to right as a decimal number gives
/// `sum(ds[i] * 10^(count - 1 - i))`.
pub proof fn lemma_positional_value_is_weighted_sum(ds: Seq<i32>)
    ensures
        positional_value(ds) == weighted_digit_sum(ds),
    decreases ds.len(),
{
    if ds.len() == 0 {
    } else if ds.len() == 1 {
        assert(ds.drop_last() =~= Seq::<i32>::empty());
        assert(ds.skip(1) =~= Seq::<i32>::empty());
        assert(pow10(0) == 1);
        assert(weighted_digit_sum(ds) == ds[0] * pow10(0) + weighted_digit_sum(ds.skip(1)));
        assert(positional_value(ds.drop_last()) == 0);
        assert(weighted_digit_sum(ds.skip(1)) == 0);
        assert(positional_value(ds) == ds[0]);
    } else {
        let n = ds.len();
        let front = ds.drop_last();
        let tail = ds.skip(1);
        lemma_positional_value_is_weighted_sum(front);
        lemma_positional_value_is_weighted_sum(tail);
        lemma_positional_value_is_weighted_sum(tail.drop_last());
        assert(front.skip(1) =~= tail.drop_last());
        assert(tail.last() == ds.last());
        assert(front[0] == ds[0]);
        assert(pow10((n - 1) as nat) == 10 * pow10((n - 2) as nat));
        assert(weighted_digit_sum(front) == ds[0] * pow10((n - 2) as nat) + weighted_digit_sum(
            tail.drop_last(),
        ));
        assert(10 * (ds[0] * pow10((n - 2) as nat)) == ds[0] * pow10((n - 1) as nat))
            by (nonlinear_arith)
            requires
                pow10((n - 1) as nat) == 10 * pow10((n - 2) as nat),
        ;
        assert(positional_value(tail) == 10 * positional_value(tail.drop_last()) + ds.last());
        assert(positional_value(ds) == 10 * positional_value(front) + ds.last());
        assert(weighted_digit_sum(ds) == ds[0] * pow10((n - 1) as nat) + weighted_digit_sum(tail));
        assert(positional_value(ds) == weighted_digit_sum(ds));
    }
}

proof fn lemma_positional_value_nonneg(ds: Seq<i32>)
    requires
        is_decimal_digits(ds),
    ensures
        positional_value(ds) >= 0,
    decreases ds.len(),
{
    if ds.len() > 0 {
        lemma_positional_value_nonneg(ds.drop_last());
    }
}

proof fn lemma_positional_value_grows(ds: Seq<i32>, i: int, j: int)
    requires
        is_decimal_digits(ds),
        0 <= i <= j <= ds.len(),
    ensures
        positional_value(ds.take(i)) <= positional_value(ds.take(j)),
    decreases j - i,
{
    if i < j {
        lemma_positional_value_grows(ds, i, j - 1);
        assert(ds.take(j).drop_last() =~= ds.take(j - 1));
        lemma_positional_value_nonneg(ds.take(j - 1));
    }
}

/// The number written by decimal digits, most significant first; an internal
/// error when it does not fit in an `i32`.
pub fn combine_digits(digits: &Vec<i32>) -> (r: Result<i32, ProcessingError>)
    requires
        is_decimal_digits(digits@),
    ensures
        r == combine_outcome(digits@),
{
    let mut result: i64 = 0;
    let mut i: usize = 0;
    while i < digits.len()
        invariant
            i <= digits.len(),
            is_decimal_digits(digits@),
            result == positional_value(digits@.take(i as int)),
            0 <= result <= i32::MAX,
        decreases digits.len() - i,
    {
        proof {
            assert(digits@.take(i as int + 1).drop_last() =~= digits@.take(i as int));
        }
        result = result * 10 + digits[i] as i64;
        if result > i32::MAX as i64 {
            proof {
                lemma_positional_value_grows(digits@, i as int + 1, digits@.len() as int);
                assert(digits@.take(digits@.len() as int) =~= digits@);
            }
            return Err(
                ProcessingError::AppError(ReadingIdentificationError::InternalError(NUMBER_TOO_LARGE)),
            );
        }
        i = i + 1;
    }
    proof {
        assert(digits@.take(digits.len() as int) =~= digits@);
    }
    Ok(result as i32)
}

/// Reads the digits of one row, left to right, and combines them into a number.
pub fn digits_to_number(image: &BinaryImage, digits: &Vec<Rect>) -> (r: Result<
    i32,
    ProcessingError,
>)
    ensures
        r == row_outcome(image@, digits@),
{
    let mut values: Vec<i32> = Vec::new();
    let mut i: usize = 0;
    while i < digits.len()
        invariant
            i <= digits.len(),
            decode_digits(image@, digits@.take(i as int)) == Ok::<Seq<i32>, ProcessingError>(
                values@,
            ),
            is_decimal_digits(values@),
        decreases digits.len() - i,
    {
        proof {
            assert(digits@.take(i as int + 1).drop_last() =~= digits@.take(i as int));
            lemma_decoded_digit_range(image@, digits@[i as int]);
        }
        match parse_digit(image, digits[i]) {
            Ok(d) => {
                values.push(d);
            },
            Err(e) => {
                proof {
                    lemma_decode_failure_stays(image@, digits@, i as int + 1);
                    assert(digits@.take(digits@.len() as int) =~= digits@);
                }
                return Err(e);
            },
        }
        i = i + 1;
    }
    proof {
        assert(digits@.take(digits.len() as int) =~= digits@);
    }
    combine_digits(&values)
}

proof fn lemma_decode_failure_stays(v: ImageView, s: Seq<Rect>, i: int)
    requires
        0 <= i <= s.len(),
        decode_digits(v, s.take(i)) is Err,
    ensures
        decode_digits(v, s) == decode_digits(v, s.take(i)),
    decreases s.len() - i,
{
    if i < s.len() {
        assert(s.take(i + 1).drop_last() =~= s.take(i));
        lemma_decode_failure_stays(v, s, i + 1);
    } else {
        assert(s.take(i) =~= s);
    }
}

/// Reads the three numbers of the display from the binarised screen and the
/// bounding boxes of its external contours.
pub fn extract_reading(image: &BinaryImage, bounding_boxes: &Vec<Rect>) -> (r: Result<
    BloodPressureReading,
    ProcessingError,
>)
    ensures
        r == reading_outcome(image@, bounding_boxes@),
{
    let digit_borders = get_digit_borders(bounding_boxes);
    let reading_locations = match get_reading_locations(digit_borders) {
        Ok(loc) => loc,
        Err(e) => {
            return Err(e);
        },
    };
    let systolic = match digits_to_number(image, &reading_locations.systolic_region) {
        Ok(n) => n,
        Err(e) => {
            return Err(e);
        },
    };
    let diastolic = match digits_to_number(image, &reading_locations.diastolic_region) {
        Ok(n) => n,
        Err(e) => {
            return Err(e);
        },
    };
    let pulse = match digits_to_number(image, &reading_locations.pulse_region) {
        Ok(n) => n,
        Err(e) => {
            return Err(e);
        },
    };
    Ok(BloodPressureReading { systolic, diastolic, pulse })
}

} // verus!
