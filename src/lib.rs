use std::sync::Arc;
use vstd::prelude::*;

pub mod debug;
pub mod digit_extractor;
pub mod image;
pub mod lcd_number_extractor;
pub mod lcd_screen_extractor;
pub mod models;
pub mod rectangle;
pub mod sorting;

use crate::debug::{artifact_location, ArtifactPath, BpmOcrDebugOutputter, DebugStage};
use crate::image::BinaryImage;
use crate::lcd_number_extractor::{extract_reading, reading_outcome};
use crate::lcd_screen_extractor::{polygons_view, screen_outcome, BirdseyeView, LcdScreenExtractor};
use crate::models::{
    BloodPressureReading, DebuggerTrace, ImageLibraryError, Point, ProcessingError,
    ReadingIdentificationError, Rect,
};

verus! {

/// Width of the photo once resized, before the screen is looked for.
pub const RESIZED_WIDTH: i32 = 800;

/// Height of the photo once resized, before the screen is looked for.
pub const RESIZED_HEIGHT: i32 = 800;

pub const EVENT_OUT_OF_ORDER: &'static str =
    "Internal error: image processing result does not belong to the current stage";

/// Where one extraction stands, and so what the caller does next.
pub enum ExtractionState {
    /// Resize the photo to `RESIZED_WIDTH` by `RESIZED_HEIGHT` (nearest neighbour),
    /// blur it, find its edges and external outlines, simplify each outline, and
    /// hand the simplified outlines over as `ExtractionEvent::ScreenOutlines`.
    LocatingScreen,
    /// Rectify the resized photo as the view says, binarise and dilate it, and hand
    /// the dilated image and the bounding boxes of its external contours over as
    /// `ExtractionEvent::DigitCandidates`.
    ReadingDigits(BirdseyeView),
    /// The extraction is over.
    Finished(Result<BloodPressureReading, ProcessingError>),
}

/// What the image processing of the current stage produced.
pub enum ExtractionEvent {
    ScreenOutlines(Vec<Vec<Point>>),
    DigitCandidates(BinaryImage, Vec<Rect>),
    LibraryFailure(ImageLibraryError),
}

pub open spec fn out_of_order() -> Result<BloodPressureReading, ProcessingError> {
    Err(ProcessingError::AppError(ReadingIdentificationError::InternalError(EVENT_OUT_OF_ORDER)))
}

/// The state that follows `state` once `event` has happened. A failure ends the
/// extraction at once; a finished extraction stays finished.
pub open spec fn next_state(state: ExtractionState, event: ExtractionEvent) -> ExtractionState {
    match state {
        ExtractionState::Finished(r) => ExtractionState::Finished(r),
        ExtractionState::LocatingScreen => match event {
            ExtractionEvent::ScreenOutlines(a) => match screen_outcome(polygons_view(a@)) {
                Ok(view) => ExtractionState::ReadingDigits(view),
                Err(e) => ExtractionState::Finished(Err(e)),
            },
            ExtractionEvent::LibraryFailure(e) => ExtractionState::Finished(
                Err(ProcessingError::ImageDetectionLibraryError(e)),
            ),
            ExtractionEvent::DigitCandidates(_, _) => ExtractionState::Finished(out_of_order()),
        },
        ExtractionState::ReadingDigits(_) => match event {
            ExtractionEvent::DigitCandidates(image, boxes) => ExtractionState::Finished(
                reading_outcome(image@, boxes@),
            ),
            ExtractionEvent::LibraryFailure(e) => ExtractionState::Finished(
                Err(ProcessingError::ImageDetectionLibraryError(e)),
            ),
            ExtractionEvent::ScreenOutlines(_) => ExtractionState::Finished(out_of_order()),
        },
    }
}

/// The state reached from `state` through `events`, in order.
pub open spec fn run(state: ExtractionState, events: Seq<ExtractionEvent>) -> ExtractionState
    decreases events.len(),
{
    if events.len() == 0 {
        state
    } else {
        next_state(run(state, events.drop_last()), events.last())
    }
}

/// Relies on `Arc::clone`: the new handle refers to the same value.
#[verifier::external_body]
fn share<T>(handle: &Arc<T>) -> (r: Arc<T>)
    ensures
        r == *handle,
{
    Arc::clone(handle)
}

/// Reads a blood-pressure monitor's display, step by step, with one debug session.
pub struct BloodPressureReadingExtractor<T: BpmOcrDebugOutputter> {
    screen_extractor: LcdScreenExtractor<T>,
    debugging_session: DebuggerTrace<T>,
}

impl<T: BpmOcrDebugOutputter> BloodPressureReadingExtractor<T> {
    pub closed spec fn session_name(&self) -> Seq<char> {
        self.debugging_session.unique_trace_name@
    }

    pub closed spec fn outputter(&self) -> T {
        *self.debugging_session.debugger
    }

    /// The screen locator, which writes into the same session.
    pub closed spec fn screen_extractor(&self) -> LcdScreenExtractor<T> {
        self.screen_extractor
    }

    pub fn new(debugger_session: DebuggerTrace<T>) -> (r: Self)
        ensures
            r.session_name() == debugger_session.unique_trace_name@,
            r.outputter() == *debugger_session.debugger,
            r.screen_extractor().session_name() == debugger_session.unique_trace_name@,
            r.screen_extractor().outputter() == *debugger_session.debugger,
    {
        let screen_extractor = LcdScreenExtractor::new(
            share(&debugger_session.debugger),
            debugger_session.unique_trace_name.as_str(),
        );
        BloodPressureReadingExtractor { screen_extractor, debugging_session: debugger_session }
    }

    /// Where the image of `stage` goes; `None` when the session keeps nothing.
    pub fn artifact_path(&self, stage: DebugStage) -> (r: Option<ArtifactPath>)
        ensures
            match r {
                Some(p) => self.outputter().enabled() && p.location() == artifact_location(
                    self.session_name(),
                    stage,
                ),
                None => !self.outputter().enabled(),
            },
    {
        self.debugging_session.debugger.artifact_path(
            self.debugging_session.unique_trace_name.as_str(),
            stage,
        )
    }

    /// Moves the extraction on by one event.
    pub fn advance(&self, state: ExtractionState, event: ExtractionEvent) -> (r: ExtractionState)
        ensures
            r == next_state(state, event),
    {
        match state {
            ExtractionState::Finished(r) => ExtractionState::Finished(r),
            ExtractionState::LocatingScreen => match event {
                ExtractionEvent::ScreenOutlines(a) => match self.screen_extractor.extract_lcd(&a) {
                    Ok(view) => ExtractionState::ReadingDigits(view),
                    Err(e) => ExtractionState::Finished(Err(e)),
                },
                ExtractionEvent::LibraryFailure(e) => ExtractionState::Finished(
                    Err(ProcessingError::ImageDetectionLibraryError(e)),
                ),
                ExtractionEvent::DigitCandidates(_, _) => ExtractionState::Finished(
                    Err(
                        ProcessingError::AppError(
                            ReadingIdentificationError::InternalError(EVENT_OUT_OF_ORDER),
                        ),
                    ),
                ),
            },
            ExtractionState::ReadingDigits(_) => match event {
                ExtractionEvent::DigitCandidates(image, boxes) => ExtractionState::Finished(
                    extract_reading(&image, &boxes),
                ),
                ExtractionEvent::LibraryFailure(e) => ExtractionState::Finished(
                    Err(ProcessingError::ImageDetectionLibraryError(e)),
                ),
                ExtractionEvent::ScreenOutlines(_) => ExtractionState::Finished(
                    Err(
                        ProcessingError::AppError(
                            ReadingIdentificationError::InternalError(EVENT_OUT_OF_ORDER),
                        ),
                    ),
                ),
            },
        }
    }
}

proof fn lemma_finished_stays(r: Result<BloodPressureReading, ProcessingError>, events: Seq<ExtractionEvent>)
    ensures
        run(ExtractionState::Finished(r), events) == ExtractionState::Finished(r),
    decreases events.len(),
{
    if events.len() > 0 {
        lemma_finished_stays(r, events.drop_last());
    }
}

/// When the screen cannot be located the extraction ends with that failure:
/// whatever happens next, the digits are never read.
pub proof fn lemma_screen_failure_stops_extraction(
    outlines: Vec<Vec<Point>>,
    later: Seq<ExtractionEvent>,
)
    requires
        screen_outcome(polygons_view(outlines@)) is Err,
    ensures
        forall|i: int|
            0 <= i <= later.len() ==> #[trigger] run(
                next_state(ExtractionState::LocatingScreen, ExtractionEvent::ScreenOutlines(outlines)),
                later.take(i),
            ) == ExtractionState::Finished(
                Err(screen_outcome(polygons_view(outlines@))->Err_0),
            ),
{
    let first = next_state(ExtractionState::LocatingScreen, ExtractionEvent::ScreenOutlines(outlines));
    let r = Err(screen_outcome(polygons_view(outlines@))->Err_0);
    assert(first == ExtractionState::Finished(r));
    assert forall|i: int| 0 <= i <= later.len() implies #[trigger] run(first, later.take(i))
        == ExtractionState::Finished(r) by {
        lemma_finished_stays(r, later.take(i));
    }
}

/// Two extractions fed the same pixels and outlines reach the same results:
/// nothing else enters the screen location or the digit reading.
pub proof fn lemma_same_input_same_outcome(
    outlines1: Seq<Seq<Point>>,
    outlines2: Seq<Seq<Point>>,
    image1: BinaryImage,
    image2: BinaryImage,
    boxes1: Seq<Rect>,
    boxes2: Seq<Rect>,
)
    requires
        outlines1 == outlines2,
        image1@ == image2@,
        boxes1 == boxes2,
    ensures
        screen_outcome(outlines1) == screen_outcome(outlines2),
        reading_outcome(image1@, boxes1) == reading_outcome(image2@, boxes2),
{
}

} // verus!
