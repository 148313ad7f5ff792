//! Correction layers and their parameters.

use rusqlite::Connection;
use vstd::prelude::*;

use crate::bytes;
use crate::bytes::{copy_bytes, read_be16, read_be16_signed, read_be32, read_be32_signed, read_be64};
use crate::columns;
use crate::database;
use crate::database::Database;
use crate::error;
use crate::error::{Error, Failure};
use crate::limits::Limits;
use crate::message;
use crate::message::Message;
use crate::reals;
use crate::reals::Double;
use crate::sql;
use crate::sql::{query_by_id, Reply};

verus! {

fn correction_error(reason: Message) -> (error: Error)
    ensures
        error@ == (Failure::InvalidCorrection { reason: reason@ }),
{
    Error::InvalidCorrection { reason: reason.build() }
}

/// One five-value channel in a level correction.
///
/// CLIP stores these values as unsigned 8.8-style words. The raw words are
/// preserved; the common high-byte representation is available separately.
#[derive(Clone, Copy, Debug, PartialEq, Eq)]
pub struct CorrectionLevel {
    pub input_left: u16,
    pub input_mid: u16,
    pub input_right: u16,
    pub output_left: u16,
    pub output_right: u16,
}

impl CorrectionLevel {
    /// Raw input black-point word.
    #[must_use]
    pub fn input_left_raw(self) -> (value: u16)
        ensures
            value == self.input_left,
    {
        self.input_left
    }

    /// Raw input midpoint word.
    #[must_use]
    pub fn input_mid_raw(self) -> (value: u16)
        ensures
            value == self.input_mid,
    {
        self.input_mid
    }

    /// Raw input white-point word.
    #[must_use]
    pub fn input_right_raw(self) -> (value: u16)
        ensures
            value == self.input_right,
    {
        self.input_right
    }

    /// Raw output black-point word.
    #[must_use]
    pub fn output_left_raw(self) -> (value: u16)
        ensures
            value == self.output_left,
    {
        self.output_left
    }

    /// Raw output white-point word.
    #[must_use]
    pub fn output_right_raw(self) -> (value: u16)
        ensures
            value == self.output_right,
    {
        self.output_right
    }

    /// High-byte input black point used by the observed UI.
    #[must_use]
    pub fn input_left_8bit(self) -> (value: u8)
        ensures
            value == self.input_left / 256,
    {
        (self.input_left / 256) as u8
    }

    /// High-byte input midpoint used by the observed UI.
    #[must_use]
    pub fn input_mid_8bit(self) -> (value: u8)
        ensures
            value == self.input_mid / 256,
    {
        (self.input_mid / 256) as u8
    }

    /// High-byte input white point used by the observed UI.
    #[must_use]
    pub fn input_right_8bit(self) -> (value: u8)
        ensures
            value == self.input_right / 256,
    {
        (self.input_right / 256) as u8
    }

    /// High-byte output black point used by the observed UI.
    #[must_use]
    pub fn output_left_8bit(self) -> (value: u8)
        ensures
            value == self.output_left / 256,
    {
        (self.output_left / 256) as u8
    }

    /// High-byte output white point used by the observed UI.
    #[must_use]
    pub fn output_right_8bit(self) -> (value: u8)
        ensures
            value == self.output_right / 256,
    {
        (self.output_right / 256) as u8
    }
}

/// One point in a tone-correction curve.
#[derive(Clone, Copy, Debug, PartialEq, Eq)]
pub struct CorrectionCurvePoint {
    pub input: u16,
    pub output: u16,
}

impl CorrectionCurvePoint {
    /// Raw stored input word.
    #[must_use]
    pub fn input_raw(self) -> (value: u16)
        ensures
            value == self.input,
    {
        self.input
    }

    /// Raw stored output word.
    #[must_use]
    pub fn output_raw(self) -> (value: u16)
        ensures
            value == self.output,
    {
        self.output
    }

    /// High-byte input coordinate used by the observed UI.
    #[must_use]
    pub fn input_8bit(self) -> (value: u8)
        ensures
            value == self.input / 256,
    {
        (self.input / 256) as u8
    }

    /// High-byte output coordinate used by the observed UI.
    #[must_use]
    pub fn output_8bit(self) -> (value: u8)
        ensures
            value == self.output / 256,
    {
        (self.output / 256) as u8
    }
}

/// Ordered points for one tone-correction channel.
#[derive(Clone, Debug, PartialEq, Eq)]
pub struct CorrectionCurve {
    pub points: Vec<CorrectionCurvePoint>,
}

impl View for CorrectionCurve {
    type V = Seq<CorrectionCurvePoint>;

    open spec fn view(&self) -> Seq<CorrectionCurvePoint> {
        self.points@
    }
}

impl CorrectionCurve {
    /// Curve points in stored order.
    #[must_use]
    pub fn points(&self) -> (list: &[CorrectionCurvePoint])
        ensures
            list@ == self.points@,
    {
        self.points.as_slice()
    }
}

/// Cyan/magenta/yellow offsets for one color-balance range.
#[derive(Clone, Copy, Debug, PartialEq, Eq)]
pub struct ColorBalanceAdjustment {
    pub cyan: i32,
    pub magenta: i32,
    pub yellow: i32,
}

impl ColorBalanceAdjustment {
    /// Cyan/red axis value.
    #[must_use]
    pub fn cyan(self) -> (value: i32)
        ensures
            value == self.cyan,
    {
        self.cyan
    }

    /// Magenta/green axis value.
    #[must_use]
    pub fn magenta(self) -> (value: i32)
        ensures
            value == self.magenta,
    {
        self.magenta
    }

    /// Yellow/blue axis value.
    #[must_use]
    pub fn yellow(self) -> (value: i32)
        ensures
            value == self.yellow,
    {
        self.yellow
    }
}

/// One double-precision curve point attached to a gradient-map stop.
#[derive(Clone, Copy, Debug, PartialEq)]
pub struct CorrectionGradientPoint {
    pub input: Double,
    pub output: Double,
}

impl CorrectionGradientPoint {
    /// Stored input coordinate.
    #[must_use]
    pub fn input(self) -> (value: Double)
        ensures
            value == self.input,
    {
        self.input
    }

    /// Stored output coordinate.
    #[must_use]
    pub fn output(self) -> (value: Double)
        ensures
            value == self.output,
    {
        self.output
    }
}

/// One color stop in a gradient-map correction.
#[derive(Clone, Debug, PartialEq)]
pub struct CorrectionGradientStop {
    pub red: u32,
    pub green: u32,
    pub blue: u32,
    pub opacity: u32,
    pub current_color: i32,
    pub position: i32,
    pub curve_points: Vec<CorrectionGradientPoint>,
}

/// The model of a [`CorrectionGradientStop`].
#[verifier::ext_equal]
pub struct GradientStopModel {
    pub red: u32,
    pub green: u32,
    pub blue: u32,
    pub opacity: u32,
    pub current_color: i32,
    pub position: i32,
    pub curve_points: Seq<CorrectionGradientPoint>,
}

impl View for CorrectionGradientStop {
    type V = GradientStopModel;

    open spec fn view(&self) -> GradientStopModel {
        GradientStopModel {
            red: self.red,
            green: self.green,
            blue: self.blue,
            opacity: self.opacity,
            current_color: self.current_color,
            position: self.position,
            curve_points: self.curve_points@,
        }
    }
}

impl CorrectionGradientStop {
    /// Raw red component word.
    #[must_use]
    pub fn red_raw(&self) -> (value: u32)
        ensures
            value == self.red,
    {
        self.red
    }

    /// Raw green component word.
    #[must_use]
    pub fn green_raw(&self) -> (value: u32)
        ensures
            value == self.green,
    {
        self.green
    }

    /// Raw blue component word.
    #[must_use]
    pub fn blue_raw(&self) -> (value: u32)
        ensures
            value == self.blue,
    {
        self.blue
    }

    /// Raw opacity word.
    #[must_use]
    pub fn opacity_raw(&self) -> (value: u32)
        ensures
            value == self.opacity,
    {
        self.opacity
    }

    /// Raw current-color flag.
    #[must_use]
    pub fn current_color(&self) -> (value: i32)
        ensures
            value == self.current_color,
    {
        self.current_color
    }

    /// Raw fixed-point stop position, where 32768 represents 100%.
    #[must_use]
    pub fn position_raw(&self) -> (value: i32)
        ensures
            value == self.position,
    {
        self.position
    }

    /// Stop position as a percentage.
    #[must_use]
    pub fn position_percent(&self) -> (percent: Double)
        ensures
            percent.bits == reals::halved_bits(reals::integer_bits(self.position * 100), 15),
    {
        Double::from_i64(self.position as i64 * 100).halved(15)
    }

    /// Optional interpolation curve points.
    #[must_use]
    pub fn curve_points(&self) -> (list: &[CorrectionGradientPoint])
        ensures
            list@ == self.curve_points@,
    {
        self.curve_points.as_slice()
    }

    /// High-byte RGB components used by the observed UI.
    #[must_use]
    pub fn rgb_8bit(&self) -> (rgb: [u8; 3])
        ensures
            rgb[0] == self.red / 0x100_0000,
            rgb[1] == self.green / 0x100_0000,
            rgb[2] == self.blue / 0x100_0000,
    {
        [
            (self.red / 0x100_0000) as u8,
            (self.green / 0x100_0000) as u8,
            (self.blue / 0x100_0000) as u8,
        ]
    }

    /// High-byte opacity used by the observed UI.
    #[must_use]
    pub fn opacity_8bit(&self) -> (value: u8)
        ensures
            value == self.opacity / 0x100_0000,
    {
        (self.opacity / 0x100_0000) as u8
    }
}

/// Parsed `Layer.FilterLayerInfo` correction parameters.
#[derive(Clone, Debug, PartialEq)]
#[non_exhaustive]
#[allow(inconsistent_fields)]
pub enum Correction {
    /// Kind 1.
    BrightnessContrast {
        /// Brightness adjustment.
        brightness: i32,
        /// Contrast adjustment.
        contrast: i32,
    },
    /// Kind 2; channels are RGB, red, green, and blue.
    Levels {
        /// The four meaningful channel records.
        channels: [CorrectionLevel; 4],
    },
    /// Kind 3; channels are RGB, red, green, and blue.
    ToneCurve {
        /// The four meaningful channel curves.
        channels: [CorrectionCurve; 4],
    },
    /// Kind 4.
    HueSaturationLuminosity {
        /// Hue adjustment.
        hue: i32,
        /// Saturation adjustment.
        saturation: i32,
        /// Luminosity adjustment.
        luminosity: i32,
    },
    /// Kind 5.
    ColorBalance {
        /// Raw keep-luminosity flag.
        keep_luminosity: i32,
        /// Shadow-range offsets.
        shadows: ColorBalanceAdjustment,
        /// Midtone-range offsets.
        midtones: ColorBalanceAdjustment,
        /// Highlight-range offsets.
        highlights: ColorBalanceAdjustment,
    },
    /// Kind 6.
    ReverseGradient,
    /// Kind 7.
    Posterization {
        /// Requested level count.
        levels: i32,
    },
    /// Kind 8.
    Threshold {
        /// Threshold value.
        level: i32,
    },
    /// Kind 9.
    GradientMap {
        /// Ordered gradient stops.
        stops: Vec<CorrectionGradientStop>,
    },
    /// A future correction kind whose bounded payload is preserved.
    Unknown {
        /// Original big-endian kind value.
        kind: i32,
        /// Bytes after the common kind and section-size header.
        payload: Vec<u8>,
    },
}

/// The model of a [`Correction`].
#[verifier::ext_equal]
pub enum CorrectionModel {
    BrightnessContrast { brightness: i32, contrast: i32 },
    Levels { levels: Seq<CorrectionLevel> },
    ToneCurve { curves: Seq<Seq<CorrectionCurvePoint>> },
    HueSaturationLuminosity { hue: i32, saturation: i32, luminosity: i32 },
    ColorBalance {
        keep_luminosity: i32,
        shadows: ColorBalanceAdjustment,
        midtones: ColorBalanceAdjustment,
        highlights: ColorBalanceAdjustment,
    },
    ReverseGradient,
    Posterization { count: i32 },
    Threshold { level: i32 },
    GradientMap { stops: Seq<GradientStopModel> },
    Unknown { kind: i32, payload: Seq<u8> },
}

impl View for Correction {
    type V = CorrectionModel;

    open spec fn view(&self) -> CorrectionModel {
        match *self {
            Correction::BrightnessContrast { brightness, contrast } => CorrectionModel::BrightnessContrast { brightness, contrast },
            Correction::Levels { channels } => CorrectionModel::Levels { levels: channels@ },
            Correction::ToneCurve { channels } =>
                CorrectionModel::ToneCurve { curves: error::views(channels@) },
            Correction::HueSaturationLuminosity { hue, saturation, luminosity } => CorrectionModel::HueSaturationLuminosity { hue, saturation, luminosity },
            Correction::ColorBalance { keep_luminosity, shadows, midtones, highlights } => CorrectionModel::ColorBalance { keep_luminosity, shadows, midtones, highlights },
            Correction::ReverseGradient => CorrectionModel::ReverseGradient,
            Correction::Posterization { levels } => CorrectionModel::Posterization { count: levels },
            Correction::Threshold { level } => CorrectionModel::Threshold { level },
            Correction::GradientMap { stops } =>
                CorrectionModel::GradientMap { stops: error::views(stops@) },
            Correction::Unknown { kind, payload } => CorrectionModel::Unknown { kind, payload: payload@ },
        }
    }
}

impl CorrectionModel {
    /// The stored number of a correction.
    pub open spec fn kind(self) -> i32 {
        match self {
            CorrectionModel::BrightnessContrast { .. } => 1,
            CorrectionModel::Levels { .. } => 2,
            CorrectionModel::ToneCurve { .. } => 3,
            CorrectionModel::HueSaturationLuminosity { .. } => 4,
            CorrectionModel::ColorBalance { .. } => 5,
            CorrectionModel::ReverseGradient => 6,
            CorrectionModel::Posterization { .. } => 7,
            CorrectionModel::Threshold { .. } => 8,
            CorrectionModel::GradientMap { .. } => 9,
            CorrectionModel::Unknown { kind, .. } => kind,
        }
    }
}

impl Correction {
    /// Original numeric correction kind.
    #[must_use]
    pub fn kind(&self) -> (kind: i32)
        ensures
            kind == self@.kind(),
    {
        match self {
            Correction::BrightnessContrast { .. } => 1,
            Correction::Levels { .. } => 2,
            Correction::ToneCurve { .. } => 3,
            Correction::HueSaturationLuminosity { .. } => 4,
            Correction::ColorBalance { .. } => 5,
            Correction::ReverseGradient => 6,
            Correction::Posterization { .. } => 7,
            Correction::Threshold { .. } => 8,
            Correction::GradientMap { .. } => 9,
            Correction::Unknown { kind, .. } => *kind,
        }
    }
}

/// A limit on the items of a correction, where a count exceeds it.
pub open spec fn too_many(resource: Seq<char>, count: int, limits: Limits) -> Failure {
    Failure::LimitExceeded { resource, value: count as u64, limit: limits.max_correction_items }
}

/// The level record at a position.
#[verifier::opaque]
pub open spec fn level_at(body: Seq<u8>, at: int) -> CorrectionLevel {
    CorrectionLevel {
        input_left: bytes::be16(body, at) as u16,
        input_mid: bytes::be16(body, at + 2) as u16,
        input_right: bytes::be16(body, at + 4) as u16,
        output_left: bytes::be16(body, at + 6) as u16,
        output_right: bytes::be16(body, at + 8) as u16,
    }
}

/// The parameters of a level correction.
pub open spec fn levels_of(body: Seq<u8>, limits: Limits) -> Result<CorrectionModel, Failure> {
    let count = body.len() as int / 10;
    if body.len() % 10 != 0 {
        Err(
            Failure::InvalidCorrection {
                reason: "level section is not a whole number of channel records"@,
            },
        )
    } else if count < 4 {
        Err(
            Failure::InvalidCorrection {
                reason: "level channels count "@ + message::decimal(count as nat) + " is below 4"@,
            },
        )
    } else if count > limits.max_correction_items {
        Err(too_many("level channels"@, count, limits))
    } else {
        Ok(CorrectionModel::Levels { levels: Seq::new(4, |i: int| level_at(body, 10 * i)) })
    }
}

fn read_level(body: &[u8], at: usize) -> (level: CorrectionLevel)
    requires
        at + 10 <= body@.len(),
    ensures
        level == level_at(body@, at as int),
{
    proof {
        reveal(level_at);
    }
    assert(body.len() == body@.len());
    CorrectionLevel {
        input_left: read_be16(body, at),
        input_mid: read_be16(body, at + 2),
        input_right: read_be16(body, at + 4),
        output_left: read_be16(body, at + 6),
        output_right: read_be16(body, at + 8),
    }
}

fn parse_levels(body: &[u8], limits: Limits) -> (correction: Result<Correction, Error>)
    ensures
        error::outcome(correction) == levels_of(body@, limits),
{
    assert(body.len() == body@.len());
    if body.len() % 10 != 0 {
        return Err(
            correction_error(
                Message::new("level section is not a whole number of channel records"),
            ),
        );
    }
    let count: usize = body.len() / 10;
    if count < 4 {
        return Err(
            correction_error(
                Message::new("level channels count ").number(count as u64).text(" is below 4"),
            ),
        );
    }
    if count as u64 > limits.max_correction_items() {
        return Err(Error::limit("level channels", count as u64, limits.max_correction_items()));
    }
    let channels: [CorrectionLevel; 4] = [
        read_level(body, 0),
        read_level(body, 10),
        read_level(body, 20),
        read_level(body, 30),
    ];
    assert(channels@ =~= Seq::new(4, |i: int| level_at(body@, 10 * i)));
    Ok(Correction::Levels { channels })
}

/// The curve point at a position.
pub open spec fn tone_point_at(body: Seq<u8>, at: int) -> CorrectionCurvePoint {
    CorrectionCurvePoint {
        input: bytes::be16(body, at) as u16,
        output: bytes::be16(body, at + 2) as u16,
    }
}

/// The curve at a position, which has room for 32 points.
#[verifier::opaque]
pub open spec fn tone_curve_at(body: Seq<u8>, at: int, limits: Limits) -> Result<
    Seq<CorrectionCurvePoint>,
    Failure,
> {
    let count = bytes::be16_signed(body, at);
    if count < 0 {
        Err(Failure::InvalidCorrection { reason: "negative tone-curve point count"@ })
    } else if count > 32 {
        Err(
            Failure::InvalidCorrection {
                reason: "tone-curve point count "@ + message::decimal_signed(count)
                    + " exceeds 32"@,
            },
        )
    } else if count > limits.max_correction_items {
        Err(too_many("tone-curve points"@, count, limits))
    } else {
        Ok(Seq::new(count as nat, |i: int| tone_point_at(body, at + 2 + 4 * i)))
    }
}

/// The curves from one on, after the curves `found` before.
pub open spec fn tone_curves_from(
    body: Seq<u8>,
    limits: Limits,
    count: int,
    at: int,
    found: Seq<Seq<CorrectionCurvePoint>>,
) -> Result<Seq<Seq<CorrectionCurvePoint>>, Failure>
    decreases count - at,
{
    if at >= count {
        Ok(found)
    } else {
        match tone_curve_at(body, 130 * at, limits) {
            Err(failure) => Err(failure),
            Ok(curve) => tone_curves_from(body, limits, count, at + 1, found.push(curve)),
        }
    }
}

/// The parameters of a tone correction: the first four of its curves.
pub open spec fn tone_curves_of(body: Seq<u8>, limits: Limits) -> Result<CorrectionModel, Failure> {
    let count = body.len() as int / 130;
    if body.len() % 130 != 0 {
        Err(
            Failure::InvalidCorrection {
                reason: "tone-curve section is not a whole number of channel records"@,
            },
        )
    } else if count < 4 {
        Err(
            Failure::InvalidCorrection {
                reason: "tone-curve channels count "@ + message::decimal(count as nat)
                    + " is below 4"@,
            },
        )
    } else if count > limits.max_correction_items {
        Err(too_many("tone-curve channels"@, count, limits))
    } else {
        match tone_curves_from(body, limits, count, 0, Seq::empty()) {
            Err(failure) => Err(failure),
            Ok(curves) => Ok(CorrectionModel::ToneCurve { curves: curves.take(4) }),
        }
    }
}

fn parse_tone_curve(body: &[u8], at: usize, limits: Limits) -> (curve: Result<
    CorrectionCurve,
    Error,
>)
    requires
        at + 130 <= body@.len(),
    ensures
        error::outcome(curve) == tone_curve_at(body@, at as int, limits),
{
    proof {
        reveal(tone_curve_at);
    }
    assert(body.len() == body@.len());
    let count: i16 = read_be16_signed(body, at);
    if count < 0 {
        return Err(correction_error(Message::new("negative tone-curve point count")));
    }
    if count > 32 {
        return Err(
            correction_error(
                Message::new("tone-curve point count ").integer(count as i64).text(" exceeds 32"),
            ),
        );
    }
    if count as u64 > limits.max_correction_items() {
        return Err(
            Error::limit("tone-curve points", count as u64, limits.max_correction_items()),
        );
    }
    let mut points: Vec<CorrectionCurvePoint> = Vec::new();
    while points.len() < count as usize
        invariant
            points@.len() <= count <= 32,
            at + 130 <= body@.len(),
            body@.len() == body.len(),
            forall|i: int|
                0 <= i < points@.len() ==> #[trigger] points@[i] == tone_point_at(
                    body@,
                    at + 2 + 4 * i,
                ),
        decreases count - points@.len(),
    {
        let start: usize = at + 2 + 4 * points.len();
        points.push(
            CorrectionCurvePoint {
                input: read_be16(body, start),
                output: read_be16(body, start + 2),
            },
        );
    }
    let curve = CorrectionCurve { points };
    assert(curve@ =~= Seq::new(
        count as nat,
        |i: int| tone_point_at(body@, at + 2 + 4 * i),
    ));
    Ok(curve)
}

proof fn tone_curve_count(
    body: Seq<u8>,
    limits: Limits,
    count: int,
    at: int,
    found: Seq<Seq<CorrectionCurvePoint>>,
)
    requires
        at <= count,
        found.len() == at,
    ensures
        tone_curves_from(body, limits, count, at, found) matches Ok(curves) ==> curves.len()
            == count,
    decreases count - at,
{
    if at < count {
        if let Ok(curve) = tone_curve_at(body, 130 * at, limits) {
            tone_curve_count(body, limits, count, at + 1, found.push(curve));
        }
    }
}

fn parse_tone_curves(body: &[u8], limits: Limits) -> (correction: Result<Correction, Error>)
    ensures
        error::outcome(correction) == tone_curves_of(body@, limits),
{
    assert(body.len() == body@.len());
    if body.len() % 130 != 0 {
        return Err(
            correction_error(
                Message::new("tone-curve section is not a whole number of channel records"),
            ),
        );
    }
    let count: usize = body.len() / 130;
    if count < 4 {
        return Err(
            correction_error(
                Message::new("tone-curve channels count ").number(count as u64).text(
                    " is below 4",
                ),
            ),
        );
    }
    if count as u64 > limits.max_correction_items() {
        return Err(
            Error::limit("tone-curve channels", count as u64, limits.max_correction_items()),
        );
    }
    let mut curves: Vec<CorrectionCurve> = Vec::new();
    assert(error::views(curves@) =~= Seq::<Seq<CorrectionCurvePoint>>::empty());
    while curves.len() < count
        invariant
            curves@.len() <= count,
            body@.len() == 130 * count,
            body@.len() == body.len(),
            tone_curves_from(body@, limits, count as int, 0, Seq::empty()) == tone_curves_from(
                body@,
                limits,
                count as int,
                curves@.len() as int,
                error::views(curves@),
            ),
            count >= 4,
            count <= limits.max_correction_items,
        decreases count - curves@.len(),
    {
        let curve = parse_tone_curve(body, 130 * curves.len(), limits)?;
        proof {
            error::views_push(curves@, curve);
        }
        curves.push(curve);
    }
    let ghost models = error::views(curves@);
    let first = curves.remove(0);
    let second = curves.remove(0);
    let third = curves.remove(0);
    let fourth = curves.remove(0);
    let channels: [CorrectionCurve; 4] = [first, second, third, fourth];
    assert(error::views(channels@) =~= models.take(4));
    Ok(Correction::ToneCurve { channels })
}

/// One offset of a color balance.
pub open spec fn balance_at(body: Seq<u8>, at: int) -> ColorBalanceAdjustment {
    ColorBalanceAdjustment {
        cyan: bytes::be32_signed(body, at) as i32,
        magenta: bytes::be32_signed(body, at + 4) as i32,
        yellow: bytes::be32_signed(body, at + 8) as i32,
    }
}

fn parse_balance(body: &[u8], at: usize) -> (balance: ColorBalanceAdjustment)
    requires
        at + 12 <= body@.len(),
    ensures
        balance == balance_at(body@, at as int),
{
    assert(body.len() == body@.len());
    ColorBalanceAdjustment {
        cyan: read_be32_signed(body, at),
        magenta: read_be32_signed(body, at + 4),
        yellow: read_be32_signed(body, at + 8),
    }
}

/// How many curve points a gradient stop has.
#[verifier::opaque]
pub open spec fn stop_points(body: Seq<u8>, stop: int) -> int {
    bytes::be32_signed(body, 20 + 28 * stop + 24)
}

/// How many curve points the stops before one have.
pub open spec fn points_before(body: Seq<u8>, stop: int) -> int
    decreases stop,
{
    if stop <= 0 {
        0
    } else {
        points_before(body, stop - 1) + stop_points(body, stop - 1)
    }
}

/// Whether the point counts of the stops from one on can be used.
pub open spec fn point_counts_from(body: Seq<u8>, limits: Limits, count: int, stop: int) -> Result<
    (),
    Failure,
>
    decreases count - stop,
{
    if stop >= count {
        Ok(())
    } else if stop_points(body, stop) < 0 {
        Err(Failure::InvalidCorrection { reason: "gradient curve point count is negative"@ })
    } else if points_before(body, stop + 1) > usize::MAX {
        Err(Failure::InvalidCorrection { reason: "gradient point count overflow"@ })
    } else if points_before(body, stop + 1) > limits.max_correction_items {
        Err(too_many("gradient curve points"@, points_before(body, stop + 1), limits))
    } else {
        point_counts_from(body, limits, count, stop + 1)
    }
}

/// The curve point at a position.
#[verifier::opaque]
pub open spec fn gradient_point_at(body: Seq<u8>, at: int) -> CorrectionGradientPoint {
    CorrectionGradientPoint {
        input: Double { bits: bytes::be64(body, at) as u64 },
        output: Double { bits: bytes::be64(body, at + 8) as u64 },
    }
}

/// Whether both coordinates of a point are finite.
pub open spec fn gradient_point_finite(point: CorrectionGradientPoint) -> bool {
    point.input.finite() && point.output.finite()
}

/// A gradient stop, whose curve points come after all `count` stops.
pub open spec fn gradient_stop_at(body: Seq<u8>, count: int, stop: int) -> GradientStopModel {
    let at = 20 + 28 * stop;
    let points = 20 + 28 * count + 16 * points_before(body, stop);
    GradientStopModel {
        red: bytes::be32(body, at) as u32,
        green: bytes::be32(body, at + 4) as u32,
        blue: bytes::be32(body, at + 8) as u32,
        opacity: bytes::be32(body, at + 12) as u32,
        current_color: bytes::be32_signed(body, at + 16) as i32,
        position: bytes::be32_signed(body, at + 20) as i32,
        curve_points: Seq::new(
            stop_points(body, stop) as nat,
            |i: int| gradient_point_at(body, points + 16 * i),
        ),
    }
}

/// What is said of a number that is not the expected one.
pub open spec fn token_complaint(name: Seq<char>, actual: int, expected: int) -> Seq<char> {
    name + " value "@ + message::decimal_signed(actual) + " does not match "@
        + message::decimal_signed(expected)
}

/// What is said of a section that is not as long as it says.
pub open spec fn section_complaint(
    name: Seq<char>,
    declared: Seq<char>,
    size: int,
    remaining: int,
) -> Seq<char> {
    if size < 0 {
        name + " is negative"@
    } else {
        declared + " "@ + message::decimal_signed(size) + " does not match "@ + message::decimal(
            remaining as nat,
        ) + " remaining bytes"@
    }
}

/// What is wrong with the numbers that a gradient map begins with, if something is.
pub open spec fn gradient_fault(body: Seq<u8>) -> Option<Seq<char>> {
    let size = bytes::be32_signed(body, 0);
    let remaining = body.len() - 4;
    if body.len() < 4 {
        Some("payload is truncated"@)
    } else if size != remaining {
        Some(
            section_complaint("gradient section size"@, "gradient section size"@, size, remaining),
        )
    } else if body.len() < 8 {
        Some("payload is truncated"@)
    } else if bytes::be32_signed(body, 4) != 16 {
        Some(token_complaint("gradient header"@, bytes::be32_signed(body, 4), 16))
    } else if body.len() < 12 {
        Some("payload is truncated"@)
    } else if bytes::be32_signed(body, 8) != 28 {
        Some(token_complaint("gradient stop record size"@, bytes::be32_signed(body, 8), 28))
    } else if body.len() < 16 {
        Some("payload is truncated"@)
    } else if bytes::be32_signed(body, 12) < 0 {
        Some("gradient stop count is negative"@)
    } else {
        None
    }
}

/// The parameters of a gradient map.
pub open spec fn gradient_map_of(body: Seq<u8>, limits: Limits) -> Result<
    CorrectionModel,
    Failure,
> {
    let count = bytes::be32_signed(body, 12);
    let total = points_before(body, count);
    if gradient_fault(body) is Some {
        Err(Failure::InvalidCorrection { reason: gradient_fault(body)->Some_0 })
    } else if count > limits.max_correction_items {
        Err(too_many("gradient stops"@, count, limits))
    } else if body.len() < 20 {
        Err(Failure::InvalidCorrection { reason: "payload is truncated"@ })
    } else if bytes::be32_signed(body, 16) != 16 {
        Err(
            Failure::InvalidCorrection {
                reason: token_complaint(
                    "gradient curve record size"@,
                    bytes::be32_signed(body, 16),
                    16,
                ),
            },
        )
    } else if 20 + 28 * count > body.len() {
        Err(Failure::InvalidCorrection { reason: "gradient stop records are truncated"@ })
    } else {
        match point_counts_from(body, limits, count, 0) {
            Err(failure) => Err(failure),
            Ok(()) => if 20 + 28 * count + 16 * total != body.len() {
                Err(
                    Failure::InvalidCorrection {
                        reason: if 16 * total > usize::MAX {
                            "gradient point byte count overflow"@
                        } else {
                            "gradient point data has "@ + message::decimal(
                                (body.len() - 20 - 28 * count) as nat,
                            ) + " bytes instead of "@ + message::decimal((16 * total) as nat)
                        },
                    },
                )
            } else if exists|i: int|
                0 <= i < total && !gradient_point_finite(
                    #[trigger] gradient_point_at(body, 20 + 28 * count + 16 * i),
                ) {
                Err(Failure::InvalidCorrection { reason: "gradient curve point is not finite"@ })
            } else {
                Ok(
                    CorrectionModel::GradientMap {
                        stops: Seq::new(
                            count as nat,
                            |i: int| gradient_stop_at(body, count, i),
                        ),
                    },
                )
            },
        }
    }
}

fn read_stop_points(body: &[u8], stop: usize) -> (count: i32)
    requires
        20 + 28 * (stop + 1) <= body@.len(),
    ensures
        count == stop_points(body@, stop as int),
{
    proof {
        reveal(stop_points);
    }
    assert(body.len() == body@.len());
    read_be32_signed(body, 20 + 28 * stop + 24)
}

fn read_gradient_point(body: &[u8], at: usize) -> (point: CorrectionGradientPoint)
    requires
        at + 16 <= body@.len(),
    ensures
        point == gradient_point_at(body@, at as int),
{
    proof {
        reveal(gradient_point_at);
    }
    assert(body.len() == body@.len());
    CorrectionGradientPoint {
        input: Double { bits: read_be64(body, at) },
        output: Double { bits: read_be64(body, at + 8) },
    }
}

proof fn points_grow(body: Seq<u8>, limits: Limits, count: int, stop: int, later: int)
    requires
        0 <= stop <= later <= count,
        point_counts_from(body, limits, count, 0) is Ok,
    ensures
        0 <= points_before(body, stop) <= points_before(body, later),
        stop < count ==> stop_points(body, stop) >= 0,
        point_counts_from(body, limits, count, stop) is Ok,
    decreases later,
{
    if later > 0 {
        if stop < later {
            points_grow(body, limits, count, stop, later - 1);
            points_grow(body, limits, count, later - 1, later - 1);
        } else {
            points_grow(body, limits, count, stop - 1, later - 1);
        }
    }
}

/// Counts the curve points of all stops.
fn count_points(body: &[u8], count: usize, limits: Limits) -> (total: Result<usize, Error>)
    requires
        20 + 28 * count <= body@.len(),
    ensures
        match total {
            Ok(total) => point_counts_from(body@, limits, count as int, 0) is Ok && total
                == points_before(body@, count as int),
            Err(error) => point_counts_from(body@, limits, count as int, 0) == Err::<(), Failure>(
                error@,
            ),
        },
{
    let mut total: usize = 0;
    let mut stop: usize = 0;
    while stop < count
        invariant
            stop <= count,
            20 + 28 * count <= body@.len(),
            total == points_before(body@, stop as int),
            point_counts_from(body@, limits, count as int, 0) == point_counts_from(
                body@,
                limits,
                count as int,
                stop as int,
            ),
        decreases count - stop,
    {
        let points: i32 = read_stop_points(body, stop);
        if points < 0 {
            return Err(correction_error(Message::new("gradient curve point count is negative")));
        }
        total =
        match total.checked_add(points as usize) {
            Some(total) => total,
            None => return Err(correction_error(Message::new("gradient point count overflow"))),
        };
        if total as u64 > limits.max_correction_items() {
            return Err(
                Error::limit(
                    "gradient curve points",
                    total as u64,
                    limits.max_correction_items(),
                ),
            );
        }
        stop = stop + 1;
    }
    Ok(total)
}

#[verifier::spinoff_prover]
fn parse_stop(body: &[u8], count: usize, stop: usize, first: usize, limits: Limits) -> (found:
    Result<CorrectionGradientStop, Error>)
    requires
        stop < count,
        point_counts_from(body@, limits, count as int, 0) is Ok,
        first == 20 + 28 * count + 16 * points_before(body@, stop as int),
        20 + 28 * count + 16 * points_before(body@, count as int) == body@.len(),
    ensures
        match found {
            Ok(found) => found@ == gradient_stop_at(body@, count as int, stop as int) && forall|
                i: int,
            |
                points_before(body@, stop as int) <= i < points_before(body@, stop + 1)
                    ==> gradient_point_finite(
                    #[trigger] gradient_point_at(body@, 20 + 28 * count + 16 * i),
                ),
            Err(error) => error@ == (Failure::InvalidCorrection {
                reason: "gradient curve point is not finite"@,
            }) && exists|i: int|
                0 <= i < points_before(body@, count as int) && !gradient_point_finite(
                    #[trigger] gradient_point_at(body@, 20 + 28 * count + 16 * i),
                ),
        },
{
    assert(body.len() == body@.len());
    let ghost before = points_before(body@, stop as int);
    let ghost base = 20 + 28 * count;
    proof {
        points_grow(body@, limits, count as int, stop as int, stop + 1);
        points_grow(body@, limits, count as int, stop + 1, count as int);
    }
    let at: usize = 20 + 28 * stop;
    let points: i32 = read_stop_points(body, stop);
    let mut curve_points: Vec<CorrectionGradientPoint> = Vec::new();
    while curve_points.len() < points as usize
        invariant
            curve_points@.len() <= points,
            0 <= before,
            points == stop_points(body@, stop as int),
            before + points == points_before(body@, stop + 1),
            points_before(body@, stop + 1) <= points_before(body@, count as int),
            base == 20 + 28 * count,
            first == base + 16 * before,
            base + 16 * points_before(body@, count as int) == body@.len(),
            body.len() == body@.len(),
            forall|i: int|
                0 <= i < curve_points@.len() ==> #[trigger] curve_points@[i] == gradient_point_at(
                    body@,
                    first + 16 * i,
                ),
            forall|i: int|
                before <= i < before + curve_points@.len() ==> gradient_point_finite(
                    #[trigger] gradient_point_at(body@, base + 16 * i),
                ),
        decreases points - curve_points@.len(),
    {
        let ghost index = before + curve_points@.len();
        assert(first + 16 * curve_points@.len() == base + 16 * index);
        let point = read_gradient_point(body, first + 16 * curve_points.len());
        assert(point == gradient_point_at(body@, base + 16 * index));
        if !point.input.is_finite() || !point.output.is_finite() {
            return Err(correction_error(Message::new("gradient curve point is not finite")));
        }
        curve_points.push(point);
    }
    let found = CorrectionGradientStop {
        red: read_be32(body, at),
        green: read_be32(body, at + 4),
        blue: read_be32(body, at + 8),
        opacity: read_be32(body, at + 12),
        current_color: read_be32_signed(body, at + 16),
        position: read_be32_signed(body, at + 20),
        curve_points,
    };
    assert(found@.curve_points =~= gradient_stop_at(
        body@,
        count as int,
        stop as int,
    ).curve_points);
    Ok(found)
}

fn wrong_token(name: &str, actual: i32, expected: i32) -> (error: Error)
    ensures
        error@ == (Failure::InvalidCorrection {
            reason: token_complaint(name@, actual as int, expected as int),
        }),
{
    correction_error(
        Message::new(name).text(" value ").integer(actual as i64).text(" does not match ").integer(
            expected as i64,
        ),
    )
}

fn wrong_section(name: &str, declared: &str, size: i32, remaining: usize) -> (error: Error)
    ensures
        error@ == (Failure::InvalidCorrection {
            reason: section_complaint(name@, declared@, size as int, remaining as int),
        }),
{
    if size < 0 {
        return correction_error(Message::new(name).text(" is negative"));
    }
    correction_error(
        Message::new(declared).text(" ").integer(size as i64).text(" does not match ").number(
            remaining as u64,
        ).text(" remaining bytes"),
    )
}

fn short_gradient(body: &[u8]) -> (error: Error)
    requires
        body@.len() < 16,
    ensures
        gradient_fault(body@) matches Some(reason) && error@ == (Failure::InvalidCorrection {
            reason,
        }),
{
    assert(body.len() == body@.len());
    let length: usize = body.len();
    if length >= 4 {
        let nested: i32 = read_be32_signed(body, 0);
        if nested < 0 || nested as u64 != (length - 4) as u64 {
            return wrong_section(
                "gradient section size",
                "gradient section size",
                nested,
                length - 4,
            );
        }
    }
    if length >= 8 {
        let token: i32 = read_be32_signed(body, 4);
        if token != 16 {
            return wrong_token("gradient header", token, 16);
        }
    }
    if length >= 12 {
        let token: i32 = read_be32_signed(body, 8);
        if token != 28 {
            return wrong_token("gradient stop record size", token, 28);
        }
    }
    correction_error(Message::new("payload is truncated"))
}

#[verifier::spinoff_prover]
fn parse_gradient_map(body: &[u8], limits: Limits) -> (correction: Result<Correction, Error>)
    ensures
        error::outcome(correction) == gradient_map_of(body@, limits),
{
    assert(body.len() == body@.len());
    let length: usize = body.len();
    if length < 16 {
        return Err(short_gradient(body));
    }
    let nested: i32 = read_be32_signed(body, 0);
    if nested < 0 || nested as u64 != (length - 4) as u64 {
        return Err(
            wrong_section("gradient section size", "gradient section size", nested, length - 4),
        );
    }
    let token: i32 = read_be32_signed(body, 4);
    if token != 16 {
        return Err(wrong_token("gradient header", token, 16));
    }
    let token: i32 = read_be32_signed(body, 8);
    if token != 28 {
        return Err(wrong_token("gradient stop record size", token, 28));
    }
    let stops: i32 = read_be32_signed(body, 12);
    if stops < 0 {
        return Err(correction_error(Message::new("gradient stop count is negative")));
    }
    if stops as u64 > limits.max_correction_items() {
        return Err(Error::limit("gradient stops", stops as u64, limits.max_correction_items()));
    }
    if length < 20 {
        return Err(correction_error(Message::new("payload is truncated")));
    }
    let token: i32 = read_be32_signed(body, 16);
    if token != 16 {
        return Err(wrong_token("gradient curve record size", token, 16));
    }
    if 28 * (stops as u64) > (length - 20) as u64 {
        return Err(correction_error(Message::new("gradient stop records are truncated")));
    }
    let count: usize = stops as usize;
    let total: usize = count_points(body, count, limits)?;
    let rest: usize = length - 20 - 28 * count;
    if rest % 16 != 0 || rest / 16 != total {
        return Err(
            match total.checked_mul(16) {
                Some(required) => correction_error(
                    Message::new("gradient point data has ").number(rest as u64).text(
                        " bytes instead of ",
                    ).number(required as u64),
                ),
                None => correction_error(Message::new("gradient point byte count overflow")),
            },
        );
    }
    let mut found: Vec<CorrectionGradientStop> = Vec::new();
    let mut first: usize = 20 + 28 * count;
    while found.len() < count
        invariant
            found@.len() <= count,
            body.len() == body@.len(),
            count == bytes::be32_signed(body@, 12),
            point_counts_from(body@, limits, count as int, 0) is Ok,
            first == 20 + 28 * count + 16 * points_before(body@, found@.len() as int),
            20 + 28 * count + 16 * points_before(body@, count as int) == body@.len(),
            gradient_map_of(body@, limits) == if exists|i: int|
                0 <= i < points_before(body@, count as int) && !gradient_point_finite(
                    #[trigger] gradient_point_at(body@, 20 + 28 * count + 16 * i),
                ) {
                Err(Failure::InvalidCorrection { reason: "gradient curve point is not finite"@ })
            } else {
                Ok(
                    CorrectionModel::GradientMap {
                        stops: Seq::new(
                            count as nat,
                            |i: int| gradient_stop_at(body@, count as int, i),
                        ),
                    },
                )
            },
            forall|i: int|
                0 <= i < found@.len() ==> (#[trigger] found@[i])@ == gradient_stop_at(
                    body@,
                    count as int,
                    i,
                ),
            forall|i: int|
                0 <= i < points_before(body@, found@.len() as int) ==> gradient_point_finite(
                    #[trigger] gradient_point_at(body@, 20 + 28 * count + 16 * i),
                ),
        decreases count - found@.len(),
    {
        let stop = found.len();
        proof {
            points_grow(body@, limits, count as int, stop as int, stop + 1);
            points_grow(body@, limits, count as int, stop + 1, count as int);
        }
        let next = parse_stop(body, count, stop, first, limits)?;
        let points: i32 = read_stop_points(body, stop);
        first = first + 16 * (points as usize);
        found.push(next);
    }
    let correction = Correction::GradientMap { stops: found };
    assert(error::views(found@) =~= Seq::new(
        count as nat,
        |i: int| gradient_stop_at(body@, count as int, i),
    ));
    Ok(correction)
}

/// A body of a fixed size.
pub open spec fn sized<T>(
    body: Seq<u8>,
    size: int,
    name: Seq<char>,
    value: T,
) -> Result<T, Failure> {
    if body.len() == size {
        Ok(value)
    } else {
        Err(
            Failure::InvalidCorrection {
                reason: name + " has "@ + message::decimal(body.len()) + " bytes instead of "@
                    + message::decimal(size as nat),
            },
        )
    }
}

/// The parameters of a correction of a kind.
pub open spec fn correction_body_of(kind: i32, body: Seq<u8>, limits: Limits) -> Result<
    CorrectionModel,
    Failure,
> {
    let word = |at: int| bytes::be32_signed(body, at) as i32;
    if kind == 1 {
        sized(
            body,
            8,
            "brightness/contrast"@,
            CorrectionModel::BrightnessContrast { brightness: word(0), contrast: word(4) },
        )
    } else if kind == 2 {
        levels_of(body, limits)
    } else if kind == 3 {
        tone_curves_of(body, limits)
    } else if kind == 4 {
        sized(
            body,
            12,
            "hue/saturation/luminosity"@,
            CorrectionModel::HueSaturationLuminosity {
                hue: word(0),
                saturation: word(4),
                luminosity: word(8),
            },
        )
    } else if kind == 5 {
        sized(
            body,
            40,
            "color balance"@,
            CorrectionModel::ColorBalance {
                keep_luminosity: word(0),
                shadows: balance_at(body, 4),
                midtones: balance_at(body, 16),
                highlights: balance_at(body, 28),
            },
        )
    } else if kind == 6 {
        sized(body, 0, "reverse gradient"@, CorrectionModel::ReverseGradient)
    } else if kind == 7 {
        sized(body, 4, "posterization"@, CorrectionModel::Posterization { count: word(0) })
    } else if kind == 8 {
        sized(body, 4, "threshold"@, CorrectionModel::Threshold { level: word(0) })
    } else if kind == 9 {
        gradient_map_of(body, limits)
    } else {
        Ok(CorrectionModel::Unknown { kind, payload: body })
    }
}

/// The correction that a payload describes.
pub open spec fn correction_of(data: Seq<u8>, limits: Limits) -> Result<CorrectionModel, Failure> {
    if data.len() > limits.max_correction_bytes {
        Err(
            Failure::LimitExceeded {
                resource: "correction-layer bytes"@,
                value: data.len() as u64,
                limit: limits.max_correction_bytes,
            },
        )
    } else if data.len() < 8 {
        Err(Failure::InvalidCorrection { reason: "payload is truncated"@ })
    } else if bytes::be32_signed(data, 4) != data.len() - 8 {
        Err(
            Failure::InvalidCorrection {
                reason: section_complaint(
                    "section size"@,
                    "declared section size"@,
                    bytes::be32_signed(data, 4),
                    data.len() - 8,
                ),
            },
        )
    } else {
        correction_body_of(bytes::be32_signed(data, 0) as i32, data.skip(8), limits)
    }
}

fn require_size(body: &[u8], expected: usize, name: &str) -> (result: Result<(), Error>)
    ensures
        error::plain(result) == sized(body@, expected as int, name@, ()),
{
    assert(body.len() == body@.len());
    if body.len() == expected {
        Ok(())
    } else {
        Err(
            correction_error(
                Message::new(name).text(" has ").number(body.len() as u64).text(
                    " bytes instead of ",
                ).number(expected as u64),
            ),
        )
    }
}

fn parse_body(kind: i32, body: &[u8], limits: Limits) -> (correction: Result<Correction, Error>)
    ensures
        error::outcome(correction) == correction_body_of(kind, body@, limits),
{
    assert(body.len() == body@.len());
    if kind == 1 {
        require_size(body, 8, "brightness/contrast")?;
        Ok(
            Correction::BrightnessContrast {
                brightness: read_be32_signed(body, 0),
                contrast: read_be32_signed(body, 4),
            },
        )
    } else if kind == 2 {
        parse_levels(body, limits)
    } else if kind == 3 {
        parse_tone_curves(body, limits)
    } else if kind == 4 {
        require_size(body, 12, "hue/saturation/luminosity")?;
        Ok(
            Correction::HueSaturationLuminosity {
                hue: read_be32_signed(body, 0),
                saturation: read_be32_signed(body, 4),
                luminosity: read_be32_signed(body, 8),
            },
        )
    } else if kind == 5 {
        require_size(body, 40, "color balance")?;
        Ok(
            Correction::ColorBalance {
                keep_luminosity: read_be32_signed(body, 0),
                shadows: parse_balance(body, 4),
                midtones: parse_balance(body, 16),
                highlights: parse_balance(body, 28),
            },
        )
    } else if kind == 6 {
        require_size(body, 0, "reverse gradient")?;
        Ok(Correction::ReverseGradient)
    } else if kind == 7 {
        require_size(body, 4, "posterization")?;
        Ok(Correction::Posterization { levels: read_be32_signed(body, 0) })
    } else if kind == 8 {
        require_size(body, 4, "threshold")?;
        Ok(Correction::Threshold { level: read_be32_signed(body, 0) })
    } else if kind == 9 {
        parse_gradient_map(body, limits)
    } else {
        let payload = copy_bytes(body, 0, body.len());
        assert(payload@ =~= body@);
        Ok(Correction::Unknown { kind, payload })
    }
}

/// Parses the payload of a correction layer.
pub fn parse_correction(data: &[u8], limits: Limits) -> (correction: Result<Correction, Error>)
    ensures
        error::outcome(correction) == correction_of(data@, limits),
{
    assert(data.len() == data@.len());
    let length: usize = data.len();
    if length as u64 > limits.max_correction_bytes() {
        return Err(
            Error::limit("correction-layer bytes", length as u64, limits.max_correction_bytes()),
        );
    }
    if length < 8 {
        return Err(correction_error(Message::new("payload is truncated")));
    }
    let kind: i32 = read_be32_signed(data, 0);
    let section: i32 = read_be32_signed(data, 4);
    if section < 0 || section as u64 != (length - 8) as u64 {
        return Err(wrong_section("section size", "declared section size", section, length - 8));
    }
    let body = copy_bytes(data, 8, length);
    assert(body@ =~= data@.skip(8));
    parse_body(kind, body.as_slice(), limits)
}

/// A parsed correction is of the kind that its payload names.
pub proof fn correction_has_its_stored_kind(data: Seq<u8>, limits: Limits)
    requires
        correction_of(data, limits) is Ok,
    ensures
        correction_of(data, limits)->Ok_0.kind() == bytes::be32_signed(data, 0) as i32,
{
}

/// One correction layer and its bounded, validated parameter payload.
#[derive(Clone, Debug, PartialEq)]
pub struct CorrectionLayerData {
    pub layer_id: i64,
    pub layer_type: i64,
    pub special_render_type: Option<i64>,
    pub format_v132: Option<i64>,
    pub correction: Correction,
    pub raw_attributes: Vec<u8>,
}

/// The model of a [`CorrectionLayerData`].
#[verifier::ext_equal]
pub struct CorrectionLayerModel {
    pub layer_id: i64,
    pub layer_type: i64,
    pub special_render_type: Option<i64>,
    pub format_v132: Option<i64>,
    pub correction: CorrectionModel,
    pub raw_attributes: Seq<u8>,
}

impl View for CorrectionLayerData {
    type V = CorrectionLayerModel;

    open spec fn view(&self) -> CorrectionLayerModel {
        CorrectionLayerModel {
            layer_id: self.layer_id,
            layer_type: self.layer_type,
            special_render_type: self.special_render_type,
            format_v132: self.format_v132,
            correction: self.correction@,
            raw_attributes: self.raw_attributes@,
        }
    }
}

impl CorrectionLayerData {
    /// `Layer.MainId`.
    #[must_use]
    pub fn layer_id(&self) -> (value: i64)
        ensures
            value == self.layer_id,
    {
        self.layer_id
    }

    /// Original `Layer.LayerType` flags.
    #[must_use]
    pub fn layer_type(&self) -> (value: i64)
        ensures
            value == self.layer_type,
    {
        self.layer_type
    }

    /// Optional raw `Layer.SpecialRenderType`.
    #[must_use]
    pub fn special_render_type(&self) -> (value: Option<i64>)
        ensures
            value == self.special_render_type,
    {
        self.special_render_type
    }

    /// Optional raw `Layer.FilterLayerV132`.
    #[must_use]
    pub fn format_v132(&self) -> (value: Option<i64>)
        ensures
            value == self.format_v132,
    {
        self.format_v132
    }

    /// Parsed correction parameters.
    #[must_use]
    pub fn correction(&self) -> (value: &Correction)
        ensures
            *value == self.correction,
    {
        &self.correction
    }

    /// Original `FilterLayerInfo` bytes.
    #[must_use]
    pub fn raw_attributes(&self) -> (list: &[u8])
        ensures
            list@ == self.raw_attributes@,
    {
        self.raw_attributes.as_slice()
    }

    /// Whether the observed correction-layer bit is set.
    #[must_use]
    pub fn has_correction_layer_bit(&self) -> (set: bool)
        ensures
            set == (self.layer_type & 4096 != 0),
    {
        self.layer_type & 4096 != 0
    }
}

/// What a layer row says of its correction, before the payload is read.
#[derive(Clone, Copy, Debug, PartialEq, Eq)]
pub struct CorrectionHeader {
    pub size: u64,
    pub layer_type: i64,
    pub special_render_type: Option<i64>,
    pub format_v132: Option<i64>,
}

/// What a layer row says of its correction, if it has one.
pub open spec fn correction_header_of(reply: sql::ReplyModel, limits: Limits) -> Result<
    Option<CorrectionHeader>,
    Failure,
> {
    match sql::first_row(reply) {
        Err(failure) => Err(failure),
        Ok(None) => Ok(None),
        Ok(Some(row)) => match sql::optional_integer_at(row, 0) {
            Err(failure) => Err(failure),
            Ok(None) => Ok(None),
            Ok(Some(size)) => if size < 0 {
                Err(Failure::InvalidCorrection { reason: "negative payload size"@ })
            } else if size > limits.max_correction_bytes {
                Err(
                    Failure::LimitExceeded {
                        resource: "correction-layer bytes"@,
                        value: size as u64,
                        limit: limits.max_correction_bytes,
                    },
                )
            } else {
                match (
                    sql::integer_at(row, 1),
                    sql::optional_integer_at(row, 2),
                    sql::optional_integer_at(row, 3),
                ) {
                    (Ok(layer_type), Ok(special_render_type), Ok(format_v132)) => Ok(
                        Some(
                            CorrectionHeader {
                                size: size as u64,
                                layer_type,
                                special_render_type,
                                format_v132,
                            },
                        ),
                    ),
                    _ => Err(Failure::Sqlite),
                }
            },
        },
    }
}

/// What a layer row says of its correction, if it has one.
pub fn correction_header_from_reply(reply: &Reply, limits: Limits) -> (header: Result<
    Option<CorrectionHeader>,
    Error,
>)
    ensures
        error::plain(header) == correction_header_of(reply@, limits),
{
    let row = match reply.first_row()? {
        Some(row) => row,
        None => return Ok(None),
    };
    let size: i64 = match row.optional_integer(0)? {
        Some(size) => size,
        None => return Ok(None),
    };
    if size < 0 {
        return Err(correction_error(Message::new("negative payload size")));
    }
    let size: u64 = size as u64;
    if size > limits.max_correction_bytes() {
        return Err(Error::limit("correction-layer bytes", size, limits.max_correction_bytes()));
    }
    let layer_type: i64 = row.integer(1)?;
    let special_render_type = row.optional_integer(2)?;
    let format_v132 = row.optional_integer(3)?;
    Ok(Some(CorrectionHeader { size, layer_type, special_render_type, format_v132 }))
}

/// The correction layer that a header and the reply with its payload make up.
pub open spec fn correction_layer_of(
    layer_id: i64,
    header: CorrectionHeader,
    reply: sql::ReplyModel,
    limits: Limits,
) -> Result<Option<CorrectionLayerModel>, Failure> {
    match sql::only_row(reply) {
        Err(failure) => Err(failure),
        Ok(row) => match sql::bytes_at(row, 0) {
            Err(failure) => Err(failure),
            Ok(raw_attributes) => if raw_attributes.len() != header.size {
                Err(Failure::InvalidCorrection { reason: "payload length changed while reading"@ })
            } else {
                match correction_of(raw_attributes, limits) {
                    Err(failure) => Err(failure),
                    Ok(correction) => Ok(
                        Some(
                            CorrectionLayerModel {
                                layer_id,
                                layer_type: header.layer_type,
                                special_render_type: header.special_render_type,
                                format_v132: header.format_v132,
                                correction,
                                raw_attributes,
                            },
                        ),
                    ),
                }
            },
        },
    }
}

/// The correction layer that a header and the reply with its payload make up.
pub fn correction_layer_from_reply(
    layer_id: i64,
    header: CorrectionHeader,
    reply: &Reply,
    limits: Limits,
) -> (layer: Result<Option<CorrectionLayerData>, Error>)
    ensures
        error::optional_outcome(layer) == correction_layer_of(layer_id, header, reply@, limits),
{
    let raw_attributes = reply.only_row()?.bytes(0)?;
    if raw_attributes.len() as u64 != header.size {
        return Err(correction_error(Message::new("payload length changed while reading")));
    }
    let correction = parse_correction(raw_attributes.as_slice(), limits)?;
    Ok(
        Some(
            CorrectionLayerData {
                layer_id,
                layer_type: header.layer_type,
                special_render_type: header.special_render_type,
                format_v132: header.format_v132,
                correction,
                raw_attributes,
            },
        ),
    )
}

/// What is asked for a correction layer, in order.
pub open spec fn correction_items(schema: Seq<database::TableModel>) -> Seq<Seq<char>> {
    seq![
        "length(FilterLayerInfo)"@,
        "LayerType"@,
        database::column_or_null(schema, "Layer"@, "SpecialRenderType"@),
        database::column_or_null(schema, "Layer"@, "FilterLayerV132"@),
    ]
}

/// The question that asks what a layer says of its correction.
pub open spec fn correction_question(schema: Seq<database::TableModel>) -> Seq<char> {
    columns::asked(correction_items(schema), " FROM Layer WHERE MainId = ?1 LIMIT 1"@)
}

/// Whether reading a correction layer can have this outcome.
pub open spec fn correction_read(
    connection: Connection,
    schema: Seq<database::TableModel>,
    layer_id: i64,
    limits: Limits,
    outcome: Result<Option<CorrectionLayerModel>, Failure>,
) -> bool {
    if !database::column_exists(schema, "Layer"@, "FilterLayerInfo"@) {
        outcome == Ok::<Option<CorrectionLayerModel>, Failure>(None)
    } else {
        match database::first_missing(schema, "Layer"@, seq!["MainId"@, "LayerType"@], 0) {
            Some(failure) => outcome == Err::<Option<CorrectionLayerModel>, Failure>(failure),
            None => exists|reply: sql::ReplyModel|
                #[trigger] sql::may_answer(
                    connection,
                    correction_question(schema),
                    seq![sql::ParameterModel::Integer(layer_id)],
                    reply,
                ) && match correction_header_of(reply, limits) {
                    Err(failure) => outcome
                        == Err::<Option<CorrectionLayerModel>, Failure>(failure),
                    Ok(None) => outcome == Ok::<Option<CorrectionLayerModel>, Failure>(None),
                    Ok(Some(header)) => correction_payload_read(
                        connection,
                        layer_id,
                        header,
                        limits,
                        outcome,
                    ),
                },
        }
    }
}

/// Whether reading the payload of a correction layer can have this outcome.
pub open spec fn correction_payload_read(
    connection: Connection,
    layer_id: i64,
    header: CorrectionHeader,
    limits: Limits,
    outcome: Result<Option<CorrectionLayerModel>, Failure>,
) -> bool {
    exists|reply: sql::ReplyModel|
        #[trigger] sql::may_answer(
            connection,
            "SELECT FilterLayerInfo FROM Layer WHERE MainId = ?1 LIMIT 1"@,
            seq![sql::ParameterModel::Integer(layer_id)],
            reply,
        ) && outcome == correction_layer_of(layer_id, header, reply, limits)
}

impl Database {
    /// Reads and validates correction parameters for one layer.
    ///
    /// Files without the optional correction column, unknown layer IDs, and
    /// rows with a `NULL` payload return `None`.
    pub fn correction_layer(&self, layer_id: i64, limits: Limits) -> (layer: Result<
        Option<CorrectionLayerData>,
        Error,
    >)
        ensures
            correction_read(
                self.connection,
                self.schema@,
                layer_id,
                limits,
                error::optional_outcome(layer),
            ),
    {
        if !self.schema.has_column("Layer", "FilterLayerInfo") {
            return Ok(None);
        }
        let columns: [&str; 2] = ["MainId", "LayerType"];
        assert(database::names(columns@) =~= seq!["MainId"@, "LayerType"@]);
        if let Some(error) = self.schema.first_missing_column("Layer", &columns) {
            return Err(error);
        }
        let asked: [&str; 4] = [
            "length(FilterLayerInfo)",
            "LayerType",
            self.schema.column_or_null("Layer", "SpecialRenderType"),
            self.schema.column_or_null("Layer", "FilterLayerV132"),
        ];
        assert(database::names(asked@) =~= correction_items(self.schema@));
        let question = columns::ask(&asked, " FROM Layer WHERE MainId = ?1 LIMIT 1");
        let reply = query_by_id(&self.connection, question.as_str(), layer_id);
        assert(sql::may_answer(
            self.connection,
            correction_question(self.schema@),
            seq![sql::ParameterModel::Integer(layer_id)],
            reply@,
        ));
        let header = match correction_header_from_reply(&reply, limits)? {
            Some(header) => header,
            None => return Ok(None),
        };
        let reply = query_by_id(
            &self.connection,
            "SELECT FilterLayerInfo FROM Layer WHERE MainId = ?1 LIMIT 1",
            layer_id,
        );
        let layer = correction_layer_from_reply(layer_id, header, &reply, limits);
        assert(correction_payload_read(
            self.connection,
            layer_id,
            header,
            limits,
            error::optional_outcome(layer),
        ));
        layer
    }
}

} // verus!
