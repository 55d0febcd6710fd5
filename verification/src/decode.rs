use vstd::prelude::*;
use crate::cfa::{Cfa, CfaModel};

verus! {

/// Calibration light sources under which a camera colour matrix is measured.
#[derive(Debug, Clone, Copy, PartialEq, Eq, Structural)]
pub enum Illuminant {
    Unknown,
    Daylight,
    Fluorescent,
    Tungsten,
    Flash,
    FineWeather,
    CloudyWeather,
    Shade,
    DaylightFluorescent,
    DaylightWhiteFluorescent,
    CoolWhiteFluorescent,
    WhiteFluorescent,
    A,
    B,
    C,
    D55,
    D65,
    D75,
    D50,
    IsoStudioTungsten,
}

/// Position of the first occurrence of `v` in `s`, if any.
pub open spec fn first_index_of(s: Seq<Illuminant>, v: Illuminant) -> Option<int> {
    if s.contains(v) {
        Some(choose|i: int| 0 <= i < s.len() && s[i] == v && forall|j: int| 0 <= j < i ==> s[j] != v)
    } else {
        None
    }
}

/// Which of the available camera colour matrices is used: the D65 one, else
/// the D50 one, else the first one offered, else none.
pub open spec fn preferred_matrix(s: Seq<Illuminant>) -> Option<int> {
    if s.contains(Illuminant::D65) {
        first_index_of(s, Illuminant::D65)
    } else if s.contains(Illuminant::D50) {
        first_index_of(s, Illuminant::D50)
    } else if s.len() > 0 {
        Some(0)
    } else {
        None
    }
}

/// Position of the first `v` in `s`, found by a scan.
fn find_first(s: &[Illuminant], v: Illuminant) -> (r: Option<usize>)
    ensures
        r is Some <==> s@.contains(v),
        r matches Some(i) ==> i < s@.len() && s@[i as int] == v && forall|j: int|
            0 <= j < i ==> s@[j] != v,
{
    let mut i: usize = 0;
    while i < s.len()
        invariant
            i <= s@.len(),
            forall|j: int| 0 <= j < i ==> s@[j] != v,
        decreases s@.len() - i,
    {
        if s[i] == v {
            return Some(i);
        }
        i = i + 1;
    }
    proof {
        assert(!s@.contains(v));
    }
    None
}

proof fn lemma_first_index_unique(s: Seq<Illuminant>, v: Illuminant, i: int)
    requires
        0 <= i < s.len(),
        s[i] == v,
        forall|j: int| 0 <= j < i ==> s[j] != v,
    ensures
        first_index_of(s, v) == Some(i),
{
    assert(s.contains(v));
    let k = choose|k: int| 0 <= k < s.len() && s[k] == v && forall|j: int| 0 <= j < k ==> s[j] != v;
    assert(k == i) by {
        if k < i {
            assert(s[k] != v);
        }
        if i < k {
            assert(s[i] != v);
        }
    }
}

/// Picks, among the light sources for which the camera offers a colour
/// matrix (in the order offered), the matrix the pipeline uses: D65 first,
/// then D50, then whichever comes first.
pub fn select_color_matrix(available: &[Illuminant]) -> (r: Option<usize>)
    ensures
        r matches Some(i) ==> i < available@.len(),
        r == (match preferred_matrix(available@) {
            Some(i) => Some(i as usize),
            None => None::<usize>,
        }),
        available@.contains(Illuminant::D65) ==> (r matches Some(i) && available@[i as int]
            == Illuminant::D65 && forall|j: int| 0 <= j < i ==> available@[j] != Illuminant::D65),
        !available@.contains(Illuminant::D65) && available@.contains(Illuminant::D50) ==> (r matches Some(
            i,
        ) && available@[i as int] == Illuminant::D50 && forall|j: int|
            0 <= j < i ==> available@[j] != Illuminant::D50),
        !available@.contains(Illuminant::D65) && !available@.contains(Illuminant::D50) ==> r == (if available@.len()
            > 0 {
            Some(0usize)
        } else {
            None::<usize>
        }),
{
    match find_first(available, Illuminant::D65) {
        Some(i) => {
            proof {
                lemma_first_index_unique(available@, Illuminant::D65, i as int);
            }
            Some(i)
        },
        None => match find_first(available, Illuminant::D50) {
            Some(i) => {
                proof {
                    lemma_first_index_unique(available@, Illuminant::D50, i as int);
                }
                Some(i)
            },
            None => if available.len() > 0 {
                Some(0)
            } else {
                None
            },
        },
    }
}

/// Number of coefficients a camera colour matrix needs: a 3 x 3 block.
pub const COLOR_MATRIX_MIN_LEN: usize = 9;

/// The light source recorded with the camera-to-XYZ matrix. It is kept only
/// when a matrix was selected, holds at least nine coefficients and its
/// (row-normalised) 3 x 3 block could be inverted; otherwise the identity
/// matrix is used and no light source is recorded.
pub fn resolve_camera_illuminant(
    selected: Option<Illuminant>,
    matrix_len: usize,
    invertible: bool,
) -> (r: Option<Illuminant>)
    ensures
        r == (if selected is Some && matrix_len >= COLOR_MATRIX_MIN_LEN && invertible {
            selected
        } else {
            None::<Illuminant>
        }),
{
    match selected {
        Some(ill) => if matrix_len >= COLOR_MATRIX_MIN_LEN && invertible {
            Some(ill)
        } else {
            None
        },
        None => None,
    }
}

/// A rectangle of the sensor: its top-left corner and its size.
#[derive(Debug, Clone, Copy, PartialEq, Eq, Structural)]
pub struct Area {
    pub x: usize,
    pub y: usize,
    pub width: usize,
    pub height: usize,
}

/// Sample data as the decoder delivered it; floating-point data is only noted.
pub enum SensorData {
    Integer(Vec<u16>),
    Float,
}

/// Why decoded sensor data cannot be developed.
#[derive(Debug, Clone, Copy, PartialEq, Eq, Structural)]
pub enum DecodeError {
    /// The image is not a colour-filter-array mosaic.
    UnsupportedPhotometric,
    /// The samples are floating point.
    FloatData,
}

/// A Bayer mosaic ready for demosaicing.
pub struct RawFrame {
    pub pixels: Vec<u16>,
    pub width: usize,
    pub height: usize,
    pub cfa: Cfa,
}

/// How many rows of an image of `len` samples, `full_width` to a row, a crop
/// starting at row `y` and `height` rows tall can take.
pub open spec fn crop_row_count(len: nat, full_width: nat, y: nat, height: nat) -> nat {
    let rows = len / full_width;
    if y >= rows {
        0
    } else if height <= rows - y {
        height
    } else {
        (rows - y) as nat
    }
}

/// How many rows a crop of `height` rows from row `y` takes from an image of
/// `len` samples, `full_width` to a row; cropping needs the area to fit in the
/// row width only when this is positive.
pub fn crop_rows_taken(len: usize, full_width: usize, y: usize, height: usize) -> (r: usize)
    requires
        full_width > 0,
    ensures
        r == crop_row_count(len as nat, full_width as nat, y as nat, height as nat),
{
    let rows = len / full_width;
    if y >= rows {
        0
    } else if height <= rows - y {
        height
    } else {
        rows - y
    }
}

/// The samples of the crop, row after row.
pub open spec fn crop_model(input: Seq<u16>, full_width: nat, area: Area) -> Seq<u16> {
    let k = crop_row_count(input.len(), full_width, area.y as nat, area.height as nat);
    Seq::new(
        (k * area.width) as nat,
        |i: int| input[(area.y + i / (area.width as int)) * full_width + area.x + i % (area.width as int)],
    )
}

/// `rawler::imgop::crop`: keeps the rectangle `area` of an image stored row
/// by row, `full_width` samples to a row, taking whole rows only and no row
/// past the end of the data. It reserves room for `width * height` samples
/// first, and slices each row it takes at `x..x + width`.
#[verifier::external_body]
fn rawler_crop(input: &[u16], full_width: usize, full_height: usize, area: Area) -> (out: Vec<u16>)
    requires
        full_width > 0,
        crop_row_count(input@.len(), full_width as nat, area.y as nat, area.height as nat) > 0
            ==> area.x + area.width <= full_width,
        area.width * area.height * 2 <= isize::MAX,
    ensures
        out@ == crop_model(input@, full_width as nat, area),
{
    rawler::imgop::crop(
        input,
        rawler::imgop::Dim2::new(full_width, full_height),
        rawler::imgop::Rect::new(
            rawler::imgop::Point::new(area.x, area.y),
            rawler::imgop::Dim2::new(area.width, area.height),
        ),
    )
}

/// What the crop step requires of its inputs.
pub open spec fn frame_inputs_ok(data: SensorData, full_width: usize, cfa: Option<Cfa>, active_area: Option<Area>) -> bool {
    match (data, cfa) {
        (SensorData::Integer(px), Some(c)) => {
            &&& full_width > 0
            &&& active_area matches Some(a) ==> {
                &&& c@.named()
                &&& a.width * a.height * 2 <= isize::MAX
                &&& crop_row_count(px@.len(), full_width as nat, a.y as nat, a.height as nat) > 0
                    ==> a.x + a.width <= full_width
            }
        },
        _ => true,
    }
}

/// Turns decoded sensor data into a mosaic frame: refuses anything but an
/// integer colour-filter-array image, and when an active area is given keeps
/// only that area, with the filter pattern shifted to match.
pub fn frame_from_sensor(
    data: SensorData,
    full_width: usize,
    cfa: Option<Cfa>,
    active_area: Option<Area>,
) -> (r: Result<RawFrame, DecodeError>)
    requires
        frame_inputs_ok(data, full_width, cfa, active_area),
    ensures
        cfa is None ==> r == Err::<RawFrame, DecodeError>(DecodeError::UnsupportedPhotometric),
        cfa is Some && data is Float ==> r == Err::<RawFrame, DecodeError>(DecodeError::FloatData),
        cfa is Some && data is Integer ==> r is Ok,
        r matches Ok(f) ==> match (data, cfa, active_area) {
            (SensorData::Integer(px), Some(c), Some(a)) => {
                &&& f.pixels@ == crop_model(px@, full_width as nat, a)
                &&& f.width == a.width
                &&& f.height == a.height
                &&& f.cfa@ == c@.shifted(a.x as int, a.y as int)
            },
            (SensorData::Integer(px), Some(c), None) => {
                &&& f.pixels@ == px@
                &&& f.width == full_width
                &&& f.height == px@.len() / (full_width as nat)
                &&& f.cfa@ == c@
            },
            _ => false,
        },
{
    let cfa = match cfa {
        Some(c) => c,
        None => return Err(DecodeError::UnsupportedPhotometric),
    };
    let pixels_full = match data {
        SensorData::Integer(px) => px,
        SensorData::Float => return Err(DecodeError::FloatData),
    };
    match active_area {
        Some(area) => {
            let full_h = pixels_full.len() / full_width;
            let cropped = rawler_crop(pixels_full.as_slice(), full_width, full_h, area);
            let shifted = cfa.shift(area.x, area.y);
            Ok(RawFrame { pixels: cropped, width: area.width, height: area.height, cfa: shifted })
        },
        None => {
            let full_h = pixels_full.len() / full_width;
            Ok(RawFrame { pixels: pixels_full, width: full_width, height: full_h, cfa })
        },
    }
}

/// Cropping keeps every sample together with its filter colour: when the
/// active area lies inside the image, the frame holds `width * height`
/// samples, and the sample at (`row`, `col`) of the frame is the sample at
/// (`row + y`, `col + x`) of the full image and has the colour that site has
/// in the full pattern.
pub proof fn lemma_crop_keeps_sites(
    input: Seq<u16>,
    full_width: nat,
    full_cfa: CfaModel,
    a: Area,
    row: int,
    col: int,
)
    requires
        full_width > 0,
        full_cfa.wf(),
        a.x + a.width <= full_width,
        (a.y + a.height) * full_width <= input.len(),
        0 <= row < a.height,
        0 <= col < a.width,
    ensures
        crop_model(input, full_width, a).len() == a.width * a.height,
        row * a.width + col < a.width * a.height,
        crop_model(input, full_width, a)[row * a.width + col] == input[(row + a.y) * full_width + (col + a.x)],
        full_cfa.shifted(a.x as int, a.y as int).color(row, col) == full_cfa.color(row + a.y, col + a.x),
{
    let rows = input.len() / full_width;
    assert(a.y + a.height <= rows) by {
        vstd::arithmetic::div_mod::lemma_div_is_ordered(
            ((a.y + a.height) * full_width) as int,
            input.len() as int,
            full_width as int,
        );
        vstd::arithmetic::div_mod::lemma_div_multiples_vanish(
            (a.y + a.height) as int,
            full_width as int,
        );
        vstd::arithmetic::mul::lemma_mul_is_commutative((a.y + a.height) as int, full_width as int);
    }
    assert(crop_row_count(input.len(), full_width, a.y as nat, a.height as nat) == a.height);
    vstd::arithmetic::mul::lemma_mul_is_commutative(a.height as int, a.width as int);
    crate::cfa::lemma_cell_position(row, col, a.height as int, a.width as int);
    crate::cfa::lemma_shift_color(full_cfa, a.x as int, a.y as int, row, col);
}

} // verus!
