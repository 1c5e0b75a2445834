use vstd::prelude::*;

verus! {

/// Folder under the system temporary directory that holds the debug images.
pub const DEBUG_FOLDER: &'static str = "bpm-ocr";

/// Extension of the debug image files.
pub const DEBUG_IMAGE_EXTENSION: &'static str = ".jpeg";

/// The stages of the pipeline that can leave an image behind.
#[derive(Clone, Copy, Debug, PartialEq, Eq, Structural)]
pub enum DebugStage {
    OriginalPicture,
    AfterCanny,
    LcdContourCandidates,
    AfterPerspectiveTransform,
    DigitsBeforeMorph,
    DigitsAfterDilation,
    DigitLocations,
}

pub open spec fn stage_label(stage: DebugStage) -> Seq<char> {
    match stage {
        DebugStage::OriginalPicture => "original_image"@,
        DebugStage::AfterCanny => "after_canny"@,
        DebugStage::LcdContourCandidates => "contour_candidates"@,
        DebugStage::AfterPerspectiveTransform => "after_perspective_transform"@,
        DebugStage::DigitsBeforeMorph => "digits_before_morph"@,
        DebugStage::DigitsAfterDilation => "digits_after_dilation"@,
        DebugStage::DigitLocations => "digit_locations"@,
    }
}

impl DebugStage {
    /// The name of the stage's image file, without its extension.
    pub fn label(&self) -> (r: &'static str)
        ensures
            r@ == stage_label(*self),
    {
        match self {
            DebugStage::OriginalPicture => "original_image",
            DebugStage::AfterCanny => "after_canny",
            DebugStage::LcdContourCandidates => "contour_candidates",
            DebugStage::AfterPerspectiveTransform => "after_perspective_transform",
            DebugStage::DigitsBeforeMorph => "digits_before_morph",
            DebugStage::DigitsAfterDilation => "digits_after_dilation",
            DebugStage::DigitLocations => "digit_locations",
        }
    }
}

/// Where a debug image goes, below the system temporary directory:
/// `<folder>/<trace>/<file_name>`.
#[derive(Clone, Debug)]
pub struct ArtifactPath {
    pub folder: String,
    pub trace: String,
    pub file_name: String,
}

/// The path of the image that stage `stage` of trace `trace` leaves behind.
pub open spec fn artifact_location(trace: Seq<char>, stage: DebugStage) -> (
    Seq<char>,
    Seq<char>,
    Seq<char>,
) {
    (DEBUG_FOLDER@, trace, stage_label(stage) + DEBUG_IMAGE_EXTENSION@)
}

impl ArtifactPath {
    pub open spec fn location(&self) -> (Seq<char>, Seq<char>, Seq<char>) {
        (self.folder@, self.trace@, self.file_name@)
    }
}

pub fn artifact_path_for(unique_trace_id: &str, stage: DebugStage) -> (r: ArtifactPath)
    ensures
        r.location() == artifact_location(unique_trace_id@, stage),
{
    let folder = String::from_str(DEBUG_FOLDER);
    let trace = String::from_str(unique_trace_id);
    let file_name = String::from_str(stage.label()).concat(DEBUG_IMAGE_EXTENSION);
    ArtifactPath { folder, trace, file_name }
}

/// A sink for the intermediate images of the pipeline. It decides whether a
/// stage leaves an image and where; writing the image is up to the caller.
pub trait BpmOcrDebugOutputter: Sized {
    spec fn enabled(&self) -> bool;

    fn new(debug_enabled: bool) -> (r: Self);

    fn debug_enabled(&self) -> (r: bool)
        ensures
            r == self.enabled(),
    ;

    /// Where the image of `stage` goes; `None` when nothing is to be written.
    fn artifact_path(&self, unique_trace_id: &str, stage: DebugStage) -> (r: Option<ArtifactPath>)
        ensures
            match r {
                Some(p) => self.enabled() && p.location() == artifact_location(
                    unique_trace_id@,
                    stage,
                ),
                None => !self.enabled(),
            },
    {
        if !self.debug_enabled() {
            return None;
        }
        Some(artifact_path_for(unique_trace_id, stage))
    }
}

/// Writes the image of each stage into a folder of the system temporary
/// directory named after the trace, when enabled.
pub struct TempFolderDebugger {
    debug_enabled: bool,
}

/// Writes nothing.
pub struct NoDebug {}

impl BpmOcrDebugOutputter for TempFolderDebugger {
    closed spec fn enabled(&self) -> bool {
        self.debug_enabled
    }

    fn new(debug_enabled: bool) -> (r: Self)
        ensures
            r.enabled() == debug_enabled,
    {
        TempFolderDebugger { debug_enabled }
    }

    fn debug_enabled(&self) -> (r: bool) {
        self.debug_enabled
    }
}

impl BpmOcrDebugOutputter for NoDebug {
    open spec fn enabled(&self) -> bool {
        false
    }

    fn new(debug_enabled: bool) -> (r: Self) {
        NoDebug {  }
    }

    fn debug_enabled(&self) -> (r: bool) {
        false
    }
}

/// The no-op outputter is never enabled, so by the contract of `artifact_path`
/// no stage of any trace is given a path: nothing is written, whatever the image.
pub proof fn lemma_no_debug_writes_nothing(debugger: NoDebug)
    ensures
        !debugger.enabled(),
{
}

/// Writing the image of one stage twice in one trace targets the same file, and
/// the images of two different traces never share a path.
pub proof fn lemma_artifact_locations(
    trace1: Seq<char>,
    stage1: DebugStage,
    trace2: Seq<char>,
    stage2: DebugStage,
)
    ensures
        trace1 == trace2 && stage1 == stage2 ==> artifact_location(trace1, stage1)
            == artifact_location(trace2, stage2),
        trace1 != trace2 ==> artifact_location(trace1, stage1) != artifact_location(trace2, stage2),
{
}

} // verus!
