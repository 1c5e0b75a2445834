use std::sync::Arc;
use vstd::prelude::*;

use crate::debug::{BpmOcrDebugOutputter, NoDebug, TempFolderDebugger};

verus! {

/// Domain failures of a reading extraction.
#[derive(Clone, Copy, Debug)]
pub enum ReadingIdentificationError {
    InternalError(&'static str),
    CouldNotIdentifyReadings,
    CouldNotIdentityLCDCandidate,
    UnexpectedNumberOfRows,
    CouldNotProcessSegments,
}

/// A failure of an image operation.
#[derive(Clone, Debug)]
pub enum ImageLibraryError {
    /// A failure that the vision library reported, with its numeric code and text.
    Reported { code: i32, message: String },
    /// A region of interest that does not lie within its image.
    RegionOutsideImage,
}

/// Every failure that an extraction can end with.
#[derive(Clone, Debug)]
pub enum ProcessingError {
    ImageDetectionLibraryError(ImageLibraryError),
    AppError(ReadingIdentificationError),
}

impl From<ImageLibraryError> for ProcessingError {
    fn from(error: ImageLibraryError) -> (r: ProcessingError)
        ensures
            r == ProcessingError::ImageDetectionLibraryError(error),
    {
        ProcessingError::ImageDetectionLibraryError(error)
    }
}

impl vstd::std_specs::convert::FromSpecImpl<ImageLibraryError> for ProcessingError {
    open spec fn obeys_from_spec() -> bool {
        true
    }

    open spec fn from_spec(error: ImageLibraryError) -> ProcessingError {
        ProcessingError::ImageDetectionLibraryError(error)
    }
}

/// A pixel coordinate.
#[derive(Clone, Copy, Debug, PartialEq, Eq, Structural)]
pub struct Point {
    pub x: i32,
    pub y: i32,
}

impl Point {
    pub fn new(x: i32, y: i32) -> (r: Point)
        ensures
            r.x == x,
            r.y == y,
    {
        Point { x, y }
    }
}

/// An axis-aligned box: its top-left corner and its size.
#[derive(Clone, Copy, Debug, PartialEq, Eq, Structural)]
pub struct Rect {
    pub x: i32,
    pub y: i32,
    pub width: i32,
    pub height: i32,
}

impl Rect {
    pub fn new(x: i32, y: i32, width: i32, height: i32) -> (r: Rect)
        ensures
            r.x == x,
            r.y == y,
            r.width == width,
            r.height == height,
    {
        Rect { x, y, width, height }
    }
}

/// The four corners of a near-rectangular quadrilateral, labelled.
#[derive(Clone, Copy, Debug, PartialEq, Eq, Structural)]
pub struct RectangleCoordinates {
    pub top_left: Point,
    pub top_right: Point,
    pub bottom_left: Point,
    pub bottom_right: Point,
}

/// The digit boxes of the three rows of the display, each ordered left to right.
#[derive(Clone, Debug)]
pub struct ReadingLocations {
    pub systolic_region: Vec<Rect>,
    pub diastolic_region: Vec<Rect>,
    pub pulse_region: Vec<Rect>,
}

/// The three numbers shown by a blood-pressure monitor.
#[derive(Clone, Copy, Debug, PartialEq, Eq, Structural)]
pub struct BloodPressureReading {
    pub systolic: i32,
    pub diastolic: i32,
    pub pulse: i32,
}

pub open spec fn is_lower_hex(c: char) -> bool {
    ('0' <= c && c <= '9') || ('a' <= c && c <= 'f')
}

/// The canonical text of a UUID: 36 characters, lower-case hexadecimal digits
/// in groups of 8, 4, 4, 4 and 12 separated by hyphens.
pub open spec fn is_hyphenated_uuid(s: Seq<char>) -> bool {
    &&& s.len() == 36
    &&& forall|i: int|
        0 <= i < 36 ==> if i == 8 || i == 13 || i == 18 || i == 23 {
            #[trigger] s[i] == '-'
        } else {
            is_lower_hex(s[i])
        }
}

pub open spec fn hex_char(n: int) -> char {
    if n == 0 {
        '0'
    } else if n == 1 {
        '1'
    } else if n == 2 {
        '2'
    } else if n == 3 {
        '3'
    } else if n == 4 {
        '4'
    } else if n == 5 {
        '5'
    } else if n == 6 {
        '6'
    } else if n == 7 {
        '7'
    } else if n == 8 {
        '8'
    } else if n == 9 {
        '9'
    } else if n == 10 {
        'a'
    } else if n == 11 {
        'b'
    } else if n == 12 {
        'c'
    } else if n == 13 {
        'd'
    } else if n == 14 {
        'e'
    } else {
        'f'
    }
}

/// Byte `i` of the version-4 UUID made of the random bytes `b`: the high four
/// bits of byte 6 hold the version (4), the high two bits of byte 8 the variant (binary 10).
pub open spec fn uuid_v4_byte(b: Seq<u8>, i: int) -> int {
    if i == 6 {
        b[6] % 16 + 0x40
    } else if i == 8 {
        b[8] % 64 + 0x80
    } else {
        b[i] as int
    }
}

/// The lower-case hexadecimal digits of bytes `from` to `to` (excluded) of that UUID.
pub open spec fn uuid_hex_run(b: Seq<u8>, from: int, to: int) -> Seq<char>
    decreases to - from,
{
    if to <= from {
        Seq::empty()
    } else {
        let v = uuid_v4_byte(b, to - 1);
        uuid_hex_run(b, from, to - 1) + seq![hex_char(v / 16), hex_char(v % 16)]
    }
}

/// The hyphenated text of the version-4 UUID made of the random bytes `b`.
pub open spec fn uuid_v4_text(b: Seq<u8>) -> Seq<char> {
    uuid_hex_run(b, 0, 4) + seq!['-'] + uuid_hex_run(b, 4, 6) + seq!['-'] + uuid_hex_run(b, 6, 8)
        + seq!['-'] + uuid_hex_run(b, 8, 10) + seq!['-'] + uuid_hex_run(b, 10, 16)
}

proof fn lemma_uuid_hex_run(b: Seq<u8>, from: int, to: int)
    requires
        b.len() == 16,
        0 <= from <= to <= 16,
    ensures
        uuid_hex_run(b, from, to).len() == 2 * (to - from),
        forall|k: int|
            0 <= k < uuid_hex_run(b, from, to).len() ==> is_lower_hex(
                #[trigger] uuid_hex_run(b, from, to)[k],
            ),
        forall|i: int|
            from <= i < to ==> #[trigger] uuid_hex_run(b, from, to)[2 * (i - from)] == hex_char(
                uuid_v4_byte(b, i) / 16,
            ),
    decreases to - from,
{
    if to > from {
        lemma_uuid_hex_run(b, from, to - 1);
        let v = uuid_v4_byte(b, to - 1);
        assert(0 <= v < 256);
        let r = uuid_hex_run(b, from, to);
        let s = uuid_hex_run(b, from, to - 1);
        assert forall|k: int| 0 <= k < r.len() implies is_lower_hex(#[trigger] r[k]) by {
            if k < s.len() {
                assert(r[k] == s[k]);
            }
        }
        assert forall|i: int| from <= i < to implies #[trigger] r[2 * (i - from)] == hex_char(
            uuid_v4_byte(b, i) / 16,
        ) by {
            if i < to - 1 {
                assert(r[2 * (i - from)] == s[2 * (i - from)]);
            }
        }
    }
}

/// The text of a version-4 UUID is hyphenated lower-case hexadecimal, with the
/// version digit `4` at position 14 and a variant digit `8`, `9`, `a` or `b` at position 19.
pub proof fn lemma_uuid_v4_text_form(b: Seq<u8>)
    requires
        b.len() == 16,
    ensures
        is_hyphenated_uuid(uuid_v4_text(b)),
        uuid_v4_text(b)[14] == '4',
        uuid_v4_text(b)[19] == '8' || uuid_v4_text(b)[19] == '9' || uuid_v4_text(b)[19] == 'a'
            || uuid_v4_text(b)[19] == 'b',
{
    let g0 = uuid_hex_run(b, 0, 4);
    let g1 = uuid_hex_run(b, 4, 6);
    let g2 = uuid_hex_run(b, 6, 8);
    let g3 = uuid_hex_run(b, 8, 10);
    let g4 = uuid_hex_run(b, 10, 16);
    lemma_uuid_hex_run(b, 0, 4);
    lemma_uuid_hex_run(b, 4, 6);
    lemma_uuid_hex_run(b, 6, 8);
    lemma_uuid_hex_run(b, 8, 10);
    lemma_uuid_hex_run(b, 10, 16);
    let h = seq!['-'];
    let t = uuid_v4_text(b);
    assert(t.len() == 36);
    assert forall|i: int| 0 <= i < 36 implies if i == 8 || i == 13 || i == 18 || i == 23 {
        #[trigger] t[i] == '-'
    } else {
        is_lower_hex(t[i])
    } by {
        if i < 8 {
            assert(t[i] == g0[i]);
        } else if i == 8 {
        } else if i < 13 {
            assert(t[i] == g1[i - 9]);
        } else if i == 13 {
        } else if i < 18 {
            assert(t[i] == g2[i - 14]);
        } else if i == 18 {
        } else if i < 23 {
            assert(t[i] == g3[i - 19]);
        } else if i == 23 {
        } else {
            assert(t[i] == g4[i - 24]);
        }
    }
    assert(t[14] == g2[2 * (6 - 6)]);
    assert(t[19] == g3[2 * (8 - 8)]);
    assert(uuid_v4_byte(b, 6) / 16 == 4);
    assert(8 <= uuid_v4_byte(b, 8) / 16 < 12);
}

/// Relies on `uuid::Builder::from_random_bytes`, which keeps the bytes but for the
/// version and variant bits, and on `Uuid`'s `Display`, which writes the hyphenated
/// lower-case form. Neither panics.
#[verifier::external_body]
fn uuid_v4_text_of(random_bytes: [u8; 16]) -> (r: String)
    ensures
        r@ == uuid_v4_text(random_bytes@),
{
    uuid::Builder::from_random_bytes(random_bytes).into_uuid().to_string()
}

/// One extraction's debug outputter, with the name under which its images are kept.
pub struct DebuggerTrace<T: BpmOcrDebugOutputter> {
    pub unique_trace_name: String,
    pub debugger: Arc<T>,
}

impl DebuggerTrace<NoDebug> {
    /// A session that keeps no image.
    pub fn no_debug_session() -> (r: Self)
        ensures
            r.unique_trace_name@ == Seq::<char>::empty(),
            !r.debugger.enabled(),
    {
        DebuggerTrace { debugger: Arc::new(NoDebug {  }), unique_trace_name: String::new() }
    }
}

impl DebuggerTrace<TempFolderDebugger> {
    /// A session that keeps its images in the temporary folder named `unique_session_name`.
    pub fn temp_folder_session(unique_session_name: &str) -> (r: Self)
        ensures
            r.unique_trace_name@ == unique_session_name@,
            r.debugger.enabled(),
    {
        DebuggerTrace {
            debugger: Arc::new(TempFolderDebugger::new(true)),
            unique_trace_name: String::from_str(unique_session_name),
        }
    }

    /// A session that keeps its images in a temporary folder named by the
    /// version-4 UUID made of 16 random bytes, so that concurrent runs do not collide.
    pub fn temp_folder_session_uuid(random_bytes: [u8; 16]) -> (r: Self)
        ensures
            r.unique_trace_name@ == uuid_v4_text(random_bytes@),
            is_hyphenated_uuid(r.unique_trace_name@),
            r.unique_trace_name@[14] == '4',
            r.unique_trace_name@[19] == '8' || r.unique_trace_name@[19] == '9'
                || r.unique_trace_name@[19] == 'a' || r.unique_trace_name@[19] == 'b',
            r.debugger.enabled(),
    {
        let name = uuid_v4_text_of(random_bytes);
        proof {
            lemma_uuid_v4_text_form(random_bytes@);
        }
        DebuggerTrace { debugger: Arc::new(TempFolderDebugger::new(true)), unique_trace_name: name }
    }
}

} // verus!
