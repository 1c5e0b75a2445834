use vstd::prelude::*;

use std::sync::Arc;

use crate::debug::{artifact_location, ArtifactPath, BpmOcrDebugOutputter, DebugStage};
use crate::models::{Point, ProcessingError, ReadingIdentificationError, RectangleCoordinates};
use crate::rectangle::{get_rectangle_coordinates, resolve_corners};

verus! {

pub const CANDIDATE_NOT_FOUR_POINTS: &'static str =
    "Internal error: LCD candidate did not have 4 points as expected";

/// An outline of the photo that simplified to exactly four points.
#[derive(Clone, Debug)]
pub struct LcdScreenCandidate {
    /// The four points of the simplified outline.
    pub coordinates: Vec<Point>,
    /// Twice the signed area enclosed by `coordinates`.
    pub doubled_area: i128,
    /// Position of the outline among the outlines of the photo.
    pub contour_index: usize,
}

/// An outline of the photo that did not simplify to four points.
#[derive(Clone, Copy, Debug)]
pub struct RejectedLcdScreenCandidate {
    pub contour_index: usize,
}

pub enum LcdScreenCandidateResult {
    Success(LcdScreenCandidate),
    Failure(RejectedLcdScreenCandidate),
}

/// The region of the photo to rectify, and the size of the rectified image.
/// The corners map to `(0, 0)`, `(width - 1, 0)`, `(width - 1, height - 1)` and
/// `(0, height - 1)`, clockwise from the top-left one.
#[derive(Clone, Copy, Debug, PartialEq, Eq, Structural)]
pub struct BirdseyeView {
    pub corners: RectangleCoordinates,
    pub width: u64,
    pub height: u64,
}

pub open spec fn polygons_view(a: Seq<Vec<Point>>) -> Seq<Seq<Point>> {
    a.map_values(|v: Vec<Point>| v@)
}

pub open spec fn cross(a: Point, b: Point) -> int {
    a.x * b.y - a.y * b.x
}

/// The point before the `i`-th one, going round the closed outline.
pub open spec fn previous_point(p: Seq<Point>, i: int) -> Point {
    if i == 0 {
        p[p.len() - 1]
    } else {
        p[i - 1]
    }
}

pub open spec fn shoelace_sum(p: Seq<Point>, n: int) -> int
    decreases n,
{
    if n <= 0 {
        0
    } else {
        shoelace_sum(p, n - 1) + cross(previous_point(p, n - 1), p[n - 1])
    }
}

/// Twice the signed area of the closed polygon `p` (shoelace formula).
pub open spec fn doubled_signed_area(p: Seq<Point>) -> int {
    shoelace_sum(p, p.len() as int)
}

/// The positions of the outlines that simplified to four points, in order.
pub open spec fn candidate_indices(a: Seq<Seq<Point>>) -> Seq<int>
    decreases a.len(),
{
    if a.len() == 0 {
        Seq::empty()
    } else if a.last().len() == 4 {
        candidate_indices(a.drop_last()).push(a.len() - 1)
    } else {
        candidate_indices(a.drop_last())
    }
}

/// The positions of the outlines that did not simplify to four points, in order.
pub open spec fn rejected_indices(a: Seq<Seq<Point>>) -> Seq<int>
    decreases a.len(),
{
    if a.len() == 0 {
        Seq::empty()
    } else if a.last().len() == 4 {
        rejected_indices(a.drop_last())
    } else {
        rejected_indices(a.drop_last()).push(a.len() - 1)
    }
}

pub open spec fn candidate_areas(a: Seq<Seq<Point>>) -> Seq<int> {
    candidate_indices(a).map_values(|k: int| doubled_signed_area(a[k]))
}

/// `i` is the first position holding the smallest value of `areas`.
pub open spec fn is_first_smallest(areas: Seq<int>, i: int) -> bool {
    &&& 0 <= i < areas.len()
    &&& forall|j: int| 0 <= j < areas.len() ==> areas[i] <= #[trigger] areas[j]
    &&& forall|j: int| 0 <= j < i ==> #[trigger] areas[j] > areas[i]
}

pub open spec fn first_smallest(areas: Seq<int>) -> int {
    choose|i: int| is_first_smallest(areas, i)
}

/// `r` is the integer square root of `n`: the largest `r` with `r * r <= n`.
pub open spec fn is_root_of(n: int, r: int) -> bool {
    0 <= r && r * r <= n < (r + 1) * (r + 1)
}

pub open spec fn isqrt(n: int) -> int {
    choose|r: int| #[trigger] is_root_of(n, r)
}

pub open spec fn squared_distance(a: Point, b: Point) -> int {
    (a.x - b.x) * (a.x - b.x) + (a.y - b.y) * (a.y - b.y)
}

pub open spec fn max_int(a: int, b: int) -> int {
    if a >= b {
        a
    } else {
        b
    }
}

/// The rectification of the quadrilateral with corners `c`: the longer of the
/// top and bottom sides gives the width, the longer of the left and right sides the height.
pub open spec fn birdseye_view_of(c: RectangleCoordinates) -> BirdseyeView {
    BirdseyeView {
        corners: c,
        width: max_int(
            isqrt(squared_distance(c.bottom_right, c.bottom_left)),
            isqrt(squared_distance(c.top_right, c.top_left)),
        ) as u64,
        height: max_int(
            isqrt(squared_distance(c.top_right, c.bottom_right)),
            isqrt(squared_distance(c.top_left, c.bottom_left)),
        ) as u64,
    }
}

/// Where the screen is, given the simplified outlines of the photo: the first of
/// the four-point outlines with the smallest signed area.
pub open spec fn screen_outcome(a: Seq<Seq<Point>>) -> Result<BirdseyeView, ProcessingError> {
    if candidate_indices(a).len() == 0 {
        Err(ProcessingError::AppError(ReadingIdentificationError::CouldNotIdentityLCDCandidate))
    } else {
        let best = candidate_indices(a)[first_smallest(candidate_areas(a))];
        Ok(birdseye_view_of(resolve_corners(a[best])->Some_0))
    }
}

proof fn lemma_first_smallest_unique(areas: Seq<int>, i: int)
    requires
        is_first_smallest(areas, i),
    ensures
        first_smallest(areas) == i,
{
    let k = first_smallest(areas);
    assert(is_first_smallest(areas, k));
    if k < i {
        assert(areas[k] > areas[i]);
    } else if k > i {
        assert(areas[i] > areas[k]);
    }
}

proof fn lemma_isqrt_unique(n: int, r: int)
    requires
        0 <= r,
        r * r <= n < (r + 1) * (r + 1),
    ensures
        isqrt(n) == r,
{
    assert(is_root_of(n, r));
    let k = isqrt(n);
    assert(is_root_of(n, k));
    if k < r {
        assert((k + 1) * (k + 1) <= r * r) by (nonlinear_arith)
            requires
                0 <= k < r,
        ;
    } else if k > r {
        assert((r + 1) * (r + 1) <= k * k) by (nonlinear_arith)
            requires
                0 <= r < k,
        ;
    }
}

/// The largest `r` with `r * r <= n`.
fn integer_sqrt(n: u128) -> (r: u64)
    requires
        n < 0x4_0000_0000_0000_0000u128,
    ensures
        r == isqrt(n as int),
        r * r <= n < (r + 1) * (r + 1),
        r <= 0x2_0000_0000u64,
{
    let mut lo: u64 = 0;
    let mut hi: u64 = 0x2_0000_0000;
    proof {
        assert(0x2_0000_0000int * 0x2_0000_0000int == 0x4_0000_0000_0000_0000int)
            by (nonlinear_arith);
    }
    while hi - lo > 1
        invariant
            lo < hi <= 0x2_0000_0000u64,
            lo * lo <= n,
            n < hi * hi,
        decreases hi - lo,
    {
        let mid = lo + (hi - lo) / 2;
        proof {
            assert(mid * mid <= 0x2_0000_0000u64 as int * 0x2_0000_0000u64 as int)
                by (nonlinear_arith)
                requires
                    0 <= mid <= 0x2_0000_0000u64,
            ;
        }
        if (mid as u128) * (mid as u128) <= n {
            lo = mid;
        } else {
            hi = mid;
        }
    }
    proof {
        lemma_isqrt_unique(n as int, lo as int);
    }
    lo
}

fn squared_distance_of(a: Point, b: Point) -> (r: u128)
    ensures
        r == squared_distance(a, b),
        r < 0x4_0000_0000_0000_0000u128,
{
    let dx: i128 = a.x as i128 - b.x as i128;
    let dy: i128 = a.y as i128 - b.y as i128;
    proof {
        assert(dx * dx <= 0x1_0000_0000_0000_0000int) by (nonlinear_arith)
            requires
                -0x1_0000_0000 <= dx <= 0x1_0000_0000,
        ;
        assert(dy * dy <= 0x1_0000_0000_0000_0000int) by (nonlinear_arith)
            requires
                -0x1_0000_0000 <= dy <= 0x1_0000_0000,
        ;
        assert(0 <= dx * dx) by (nonlinear_arith);
        assert(0 <= dy * dy) by (nonlinear_arith);
    }
    (dx * dx + dy * dy) as u128
}

/// The size of the rectified screen image for a quadrilateral with corners `led_coordinates`.
pub fn extract_lcd_birdseye_view(led_coordinates: RectangleCoordinates) -> (r: BirdseyeView)
    ensures
        r == birdseye_view_of(led_coordinates),
{
    let c = led_coordinates;
    let width_bottom = integer_sqrt(squared_distance_of(c.bottom_right, c.bottom_left));
    let width_top = integer_sqrt(squared_distance_of(c.top_right, c.top_left));
    let max_width = if width_bottom >= width_top {
        width_bottom
    } else {
        width_top
    };
    let height_bottom = integer_sqrt(squared_distance_of(c.top_right, c.bottom_right));
    let height_top = integer_sqrt(squared_distance_of(c.top_left, c.bottom_left));
    let max_height = if height_bottom >= height_top {
        height_bottom
    } else {
        height_top
    };
    BirdseyeView { corners: c, width: max_width, height: max_height }
}

proof fn lemma_cross_bound(a: Point, b: Point)
    ensures
        -0x8000_0000_0000_0000int <= cross(a, b) <= 0x8000_0000_0000_0000int,
        -0x4000_0000_0000_0000int <= a.x * b.y <= 0x4000_0000_0000_0000int,
        -0x4000_0000_0000_0000int <= a.y * b.x <= 0x4000_0000_0000_0000int,
{
    let (ax, ay, bx, by) = (a.x as int, a.y as int, b.x as int, b.y as int);
    assert(-0x4000_0000_0000_0000int <= ax * by <= 0x4000_0000_0000_0000int) by (nonlinear_arith)
        requires
            -0x8000_0000 <= ax <= 0x8000_0000,
            -0x8000_0000 <= by <= 0x8000_0000,
    ;
    assert(-0x4000_0000_0000_0000int <= ay * bx <= 0x4000_0000_0000_0000int) by (nonlinear_arith)
        requires
            -0x8000_0000 <= ay <= 0x8000_0000,
            -0x8000_0000 <= bx <= 0x8000_0000,
    ;
}

/// Twice the signed area enclosed by a closed polygon.
pub fn contour_doubled_area(points: &Vec<Point>) -> (r: i128)
    ensures
        r == doubled_signed_area(points@),
{
    let n = points.len();
    if n == 0 {
        return 0;
    }
    let mut total: i128 = 0;
    let mut i: usize = 0;
    while i < n
        invariant
            n == points@.len(),
            n > 0,
            i <= n,
            total == shoelace_sum(points@, i as int),
            -(i as int) * 0x8000_0000_0000_0000int <= total <= (i as int) * 0x8000_0000_0000_0000int,
        decreases n - i,
    {
        let prev = if i == 0 {
            points[n - 1]
        } else {
            points[i - 1]
        };
        let p = points[i];
        proof {
            lemma_cross_bound(prev, p);
        }
        let term: i128 = prev.x as i128 * p.y as i128 - prev.y as i128 * p.x as i128;
        total = total + term;
        i = i + 1;
    }
    total
}

/// Keeps a simplified outline as a screen candidate when it has exactly four points.
pub fn get_lcd_candidate_points(contour_index: usize, approximation: Vec<Point>) -> (r:
    LcdScreenCandidateResult)
    ensures
        match r {
            LcdScreenCandidateResult::Success(c) => approximation@.len() == 4 && c.coordinates@
                == approximation@ && c.doubled_area == doubled_signed_area(approximation@)
                && c.contour_index == contour_index,
            LcdScreenCandidateResult::Failure(f) => approximation@.len() != 4 && f.contour_index
                == contour_index,
        },
{
    if approximation.len() == 4 {
        let area = contour_doubled_area(&approximation);
        LcdScreenCandidateResult::Success(
            LcdScreenCandidate { coordinates: approximation, doubled_area: area, contour_index },
        )
    } else {
        LcdScreenCandidateResult::Failure(RejectedLcdScreenCandidate { contour_index })
    }
}

/// Candidate `c` is the simplified outline at position `k` of `a`.
pub open spec fn candidate_from(c: LcdScreenCandidate, a: Seq<Seq<Point>>, k: int) -> bool {
    &&& c.contour_index == k
    &&& 0 <= k < a.len()
    &&& c.coordinates@ == a[k]
    &&& c.doubled_area == doubled_signed_area(a[k])
}

/// Splits the simplified outlines of the photo into screen candidates and
/// rejected outlines, each in the order of the outlines.
pub fn get_lcd_candidates(approximations: &Vec<Vec<Point>>) -> (r: (
    Vec<LcdScreenCandidate>,
    Vec<RejectedLcdScreenCandidate>,
))
    ensures
        r.0@.len() == candidate_indices(polygons_view(approximations@)).len(),
        forall|k: int|
            0 <= k < r.0@.len() ==> candidate_from(
                #[trigger] r.0@[k],
                polygons_view(approximations@),
                candidate_indices(polygons_view(approximations@))[k],
            ),
        r.1@.len() == rejected_indices(polygons_view(approximations@)).len(),
        forall|k: int|
            0 <= k < r.1@.len() ==> (#[trigger] r.1@[k]).contour_index == rejected_indices(
                polygons_view(approximations@),
            )[k],
{
    let ghost a = polygons_view(approximations@);
    let mut lcd_screen_candidates: Vec<LcdScreenCandidate> = Vec::new();
    let mut rejected_screen_candidates: Vec<RejectedLcdScreenCandidate> = Vec::new();
    let mut i: usize = 0;
    while i < approximations.len()
        invariant
            i <= approximations@.len(),
            a == polygons_view(approximations@),
            lcd_screen_candidates@.len() == candidate_indices(a.take(i as int)).len(),
            forall|k: int|
                0 <= k < lcd_screen_candidates@.len() ==> candidate_from(
                    #[trigger] lcd_screen_candidates@[k],
                    a,
                    candidate_indices(a.take(i as int))[k],
                ),
            rejected_screen_candidates@.len() == rejected_indices(a.take(i as int)).len(),
            forall|k: int|
                0 <= k < rejected_screen_candidates@.len() ==> (
                #[trigger] rejected_screen_candidates@[k]).contour_index == rejected_indices(
                    a.take(i as int),
                )[k],
            forall|k: int|
                0 <= k < candidate_indices(a.take(i as int)).len() ==> 0 <= #[trigger] candidate_indices(
                    a.take(i as int),
                )[k] < i,
        decreases approximations.len() - i,
    {
        proof {
            assert(a.take(i as int + 1).drop_last() =~= a.take(i as int));
            assert(a.take(i as int + 1).last() == a[i as int]);
            lemma_candidate_indices_bounded(a.take(i as int + 1));
        }
        match get_lcd_candidate_points(i, approximations[i].clone()) {
            LcdScreenCandidateResult::Success(c) => {
                lcd_screen_candidates.push(c);
            },
            LcdScreenCandidateResult::Failure(f) => {
                rejected_screen_candidates.push(f);
            },
        }
        i = i + 1;
    }
    proof {
        assert(a.take(approximations@.len() as int) =~= a);
    }
    (lcd_screen_candidates, rejected_screen_candidates)
}

proof fn lemma_candidate_indices_bounded(a: Seq<Seq<Point>>)
    ensures
        forall|k: int|
            0 <= k < candidate_indices(a).len() ==> 0 <= #[trigger] candidate_indices(a)[k] < a.len()
                && a[candidate_indices(a)[k]].len() == 4,
    decreases a.len(),
{
    if a.len() > 0 {
        let rest = a.drop_last();
        lemma_candidate_indices_bounded(rest);
        assert forall|k: int| 0 <= k < candidate_indices(rest).len() implies #[trigger] a[candidate_indices(rest)[k]]
            == rest[candidate_indices(rest)[k]] by {}
    }
}

/// Position of the first candidate with the smallest signed area; `None` when there is none.
pub fn select_best_candidate(candidates: &Vec<LcdScreenCandidate>) -> (r: Option<usize>)
    ensures
        match r {
            Some(i) => is_first_smallest(
                candidates@.map_values(|c: LcdScreenCandidate| c.doubled_area as int),
                i as int,
            ),
            None => candidates@.len() == 0,
        },
{
    let ghost areas = candidates@.map_values(|c: LcdScreenCandidate| c.doubled_area as int);
    if candidates.len() == 0 {
        return None;
    }
    let mut best: usize = 0;
    let mut i: usize = 1;
    while i < candidates.len()
        invariant
            areas == candidates@.map_values(|c: LcdScreenCandidate| c.doubled_area as int),
            1 <= i <= candidates@.len(),
            is_first_smallest(areas.take(i as int), best as int),
        decreases candidates.len() - i,
    {
        if candidates[i].doubled_area < candidates[best].doubled_area {
            best = i;
        }
        proof {
            assert(areas.take(i as int + 1).drop_last() =~= areas.take(i as int));
        }
        i = i + 1;
    }
    proof {
        assert(areas.take(candidates@.len() as int) =~= areas);
    }
    Some(best)
}

/// Locates the screen among the simplified outlines of the photo and gives the
/// rectification that shows it from the front.
pub fn locate_screen(approximations: &Vec<Vec<Point>>) -> (r: Result<BirdseyeView, ProcessingError>)
    ensures
        r == screen_outcome(polygons_view(approximations@)),
{
    let ghost a = polygons_view(approximations@);
    let (candidates, _rejected) = get_lcd_candidates(approximations);
    proof {
        lemma_candidate_indices_bounded(a);
    }
    let best = match select_best_candidate(&candidates) {
        Some(i) => i,
        None => {
            return Err(
                ProcessingError::AppError(ReadingIdentificationError::CouldNotIdentityLCDCandidate),
            );
        },
    };
    proof {
        let areas = candidates@.map_values(|c: LcdScreenCandidate| c.doubled_area as int);
        assert(areas =~= candidate_areas(a)) by {
            assert forall|k: int| 0 <= k < areas.len() implies areas[k] == candidate_areas(a)[k] by {
                assert(candidate_from(candidates@[k], a, candidate_indices(a)[k]));
            }
        }
        lemma_first_smallest_unique(candidate_areas(a), best as int);
        assert(candidate_from(candidates@[best as int], a, candidate_indices(a)[best as int]));
    }
    let lcd_coordinates = match get_rectangle_coordinates(&candidates[best].coordinates) {
        Some(c) => c,
        None => {
            return Err(
                ProcessingError::AppError(
                    ReadingIdentificationError::InternalError(CANDIDATE_NOT_FOUR_POINTS),
                ),
            );
        },
    };
    Ok(extract_lcd_birdseye_view(lcd_coordinates))
}

/// The screen locator of one extraction, with the debug outputter and trace
/// name that its images go to.
pub struct LcdScreenExtractor<T: BpmOcrDebugOutputter> {
    debugger: Arc<T>,
    debug_session_name: String,
}

impl<T: BpmOcrDebugOutputter> LcdScreenExtractor<T> {
    pub closed spec fn session_name(&self) -> Seq<char> {
        self.debug_session_name@
    }

    pub closed spec fn outputter(&self) -> T {
        *self.debugger
    }

    pub fn new(debugger: Arc<T>, debug_session_name: &str) -> (r: Self)
        ensures
            r.outputter() == *debugger,
            r.session_name() == debug_session_name@,
    {
        LcdScreenExtractor { debugger, debug_session_name: String::from_str(debug_session_name) }
    }

    /// Where the image of `stage` goes; `None` when the outputter keeps nothing.
    pub fn artifact_path(&self, stage: DebugStage) -> (r: Option<ArtifactPath>)
        ensures
            match r {
                Some(p) => self.outputter().enabled() && p.location() == artifact_location(
                    self.session_name(),
                    stage,
                ),
                None => !self.outputter().enabled(),
            },
    {
        self.debugger.artifact_path(self.debug_session_name.as_str(), stage)
    }

    /// Locates the screen among the simplified outlines of the resized photo.
    pub fn extract_lcd(&self, approximations: &Vec<Vec<Point>>) -> (r: Result<
        BirdseyeView,
        ProcessingError,
    >)
        ensures
            r == screen_outcome(polygons_view(approximations@)),
    {
        locate_screen(approximations)
    }
}

} // verus!
