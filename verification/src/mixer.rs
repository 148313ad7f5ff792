//! Animation mixers: a table of strings, and the curves that are stored after it.

use vstd::prelude::*;

use crate::bytes;
use crate::bytes::{bytes_match, copy_bytes, read_le32, read_le64};
use crate::error;
use crate::error::{Error, Failure};
use crate::limits::Limits;
use crate::message;
use crate::message::Message;
use crate::reals::{Double, Single};
use crate::text_codec;
use crate::text_codec::{decode_utf8, same_text};

verus! {

fn animation_error(reason: Message) -> (error: Error)
    ensures
        error@ == (Failure::InvalidAnimation { reason: reason@ }),
{
    Error::InvalidAnimation { reason: reason.build() }
}

/// One validated key from a generic animation `FCurve`.
#[derive(Clone, Debug, PartialEq)]
pub struct AnimationCurveKeyframe {
    pub time_60hz: Single,
    pub value: Single,
    pub tag: Option<String>,
    pub interpolation: Option<String>,
    pub left_slope: Option<Single>,
    pub right_slope: Option<Single>,
    pub revise_constant: Option<u8>,
}

/// The model of an [`AnimationCurveKeyframe`].
#[verifier::ext_equal]
pub struct KeyframeModel {
    pub time_60hz: Single,
    pub value: Single,
    pub tag: Option<Seq<char>>,
    pub interpolation: Option<Seq<char>>,
    pub left_slope: Option<Single>,
    pub right_slope: Option<Single>,
    pub revise_constant: Option<u8>,
}

impl View for AnimationCurveKeyframe {
    type V = KeyframeModel;

    open spec fn view(&self) -> KeyframeModel {
        KeyframeModel {
            time_60hz: self.time_60hz,
            value: self.value,
            tag: error::optional_text(self.tag),
            interpolation: error::optional_text(self.interpolation),
            left_slope: self.left_slope,
            right_slope: self.right_slope,
            revise_constant: self.revise_constant,
        }
    }
}

impl AnimationCurveKeyframe {
    /// Key time in the observed 60 Hz timebase.
    #[must_use]
    pub fn time_60hz(&self) -> (value: Single)
        ensures
            value == self.time_60hz,
    {
        self.time_60hz
    }

    /// Numeric curve value.
    #[must_use]
    pub fn value(&self) -> (value: Single)
        ensures
            value == self.value,
    {
        self.value
    }

    /// Optional string tag associated with the key.
    #[must_use]
    pub fn tag(&self) -> (text: Option<&str>)
        ensures
            text is Some == self.tag is Some,
            text matches Some(text) ==> text@ == self.tag.unwrap()@,
    {
        match &self.tag {
            Some(text) => Some(text.as_str()),
            None => None,
        }
    }

    /// Optional interpolation name as stored by CLIP STUDIO PAINT.
    #[must_use]
    pub fn interpolation(&self) -> (text: Option<&str>)
        ensures
            text is Some == self.interpolation is Some,
            text matches Some(text) ==> text@ == self.interpolation.unwrap()@,
    {
        match &self.interpolation {
            Some(text) => Some(text.as_str()),
            None => None,
        }
    }

    /// Optional incoming slope value.
    #[must_use]
    pub fn left_slope(&self) -> (value: Option<Single>)
        ensures
            value == self.left_slope,
    {
        self.left_slope
    }

    /// Optional outgoing slope value.
    #[must_use]
    pub fn right_slope(&self) -> (value: Option<Single>)
        ensures
            value == self.right_slope,
    {
        self.right_slope
    }

    /// Optional constant-interpolation revision flag.
    #[must_use]
    pub fn revise_constant(&self) -> (value: Option<u8>)
        ensures
            value == self.revise_constant,
    {
        self.revise_constant
    }
}

/// One named `FCurve` decoded from a track's primary action mixer.
#[derive(Clone, Debug, PartialEq)]
pub struct AnimationCurve {
    pub kind: String,
    pub axis: Option<String>,
    pub keyframes: Vec<AnimationCurveKeyframe>,
}

/// The model of an [`AnimationCurve`].
#[verifier::ext_equal]
pub struct CurveModel {
    pub kind: Seq<char>,
    pub axis: Option<Seq<char>>,
    pub keyframes: Seq<KeyframeModel>,
}

impl View for AnimationCurve {
    type V = CurveModel;

    open spec fn view(&self) -> CurveModel {
        CurveModel {
            kind: self.kind@,
            axis: error::optional_text(self.axis),
            keyframes: error::views(self.keyframes@),
        }
    }
}

impl AnimationCurve {
    /// Curve type, such as `ImageCelName`, `PlayTime`, or `AudioPlayer`.
    #[must_use]
    pub fn kind(&self) -> (text: &str)
        ensures
            text@ == self.kind@,
    {
        self.kind.as_str()
    }

    /// Optional component axis for vector parameters, such as `X` or `Y`.
    #[must_use]
    pub fn axis(&self) -> (text: Option<&str>)
        ensures
            text is Some == self.axis is Some,
            text matches Some(text) ==> text@ == self.axis.unwrap()@,
    {
        match &self.axis {
            Some(text) => Some(text.as_str()),
            None => None,
        }
    }

    /// Sorted validated keys.
    #[must_use]
    pub fn keyframes(&self) -> (list: &[AnimationCurveKeyframe])
        ensures
            list@ == self.keyframes@,
    {
        self.keyframes.as_slice()
    }
}

/// One validated double-precision key from a secondary animation `FCurve`.
#[derive(Clone, Debug, PartialEq)]
pub struct SecondaryAnimationCurveKeyframe {
    pub time_60hz: Double,
    pub value: Double,
    pub tag: Option<String>,
    pub interpolation: Option<String>,
    pub left_slope: Option<Double>,
    pub right_slope: Option<Double>,
    pub revise_constant: Option<u8>,
}

/// The model of a [`SecondaryAnimationCurveKeyframe`].
#[verifier::ext_equal]
pub struct SecondaryKeyframeModel {
    pub time_60hz: Double,
    pub value: Double,
    pub tag: Option<Seq<char>>,
    pub interpolation: Option<Seq<char>>,
    pub left_slope: Option<Double>,
    pub right_slope: Option<Double>,
    pub revise_constant: Option<u8>,
}

impl View for SecondaryAnimationCurveKeyframe {
    type V = SecondaryKeyframeModel;

    open spec fn view(&self) -> SecondaryKeyframeModel {
        SecondaryKeyframeModel {
            time_60hz: self.time_60hz,
            value: self.value,
            tag: error::optional_text(self.tag),
            interpolation: error::optional_text(self.interpolation),
            left_slope: self.left_slope,
            right_slope: self.right_slope,
            revise_constant: self.revise_constant,
        }
    }
}

impl SecondaryAnimationCurveKeyframe {
    /// Key time in the observed 60 Hz timebase.
    #[must_use]
    pub fn time_60hz(&self) -> (value: Double)
        ensures
            value == self.time_60hz,
    {
        self.time_60hz
    }

    /// Numeric curve value.
    #[must_use]
    pub fn value(&self) -> (value: Double)
        ensures
            value == self.value,
    {
        self.value
    }

    /// Optional string tag associated with the key.
    #[must_use]
    pub fn tag(&self) -> (text: Option<&str>)
        ensures
            text is Some == self.tag is Some,
            text matches Some(text) ==> text@ == self.tag.unwrap()@,
    {
        match &self.tag {
            Some(text) => Some(text.as_str()),
            None => None,
        }
    }

    /// Optional interpolation name as stored by CLIP STUDIO PAINT.
    #[must_use]
    pub fn interpolation(&self) -> (text: Option<&str>)
        ensures
            text is Some == self.interpolation is Some,
            text matches Some(text) ==> text@ == self.interpolation.unwrap()@,
    {
        match &self.interpolation {
            Some(text) => Some(text.as_str()),
            None => None,
        }
    }

    /// Optional incoming slope value.
    #[must_use]
    pub fn left_slope(&self) -> (value: Option<Double>)
        ensures
            value == self.left_slope,
    {
        self.left_slope
    }

    /// Optional outgoing slope value.
    #[must_use]
    pub fn right_slope(&self) -> (value: Option<Double>)
        ensures
            value == self.right_slope,
    {
        self.right_slope
    }

    /// Optional constant-interpolation revision flag.
    #[must_use]
    pub fn revise_constant(&self) -> (value: Option<u8>)
        ensures
            value == self.revise_constant,
    {
        self.revise_constant
    }
}

/// One named double-precision `FCurve` decoded from `TrackActionMixer2`.
#[derive(Clone, Debug, PartialEq)]
pub struct SecondaryAnimationCurve {
    pub kind: String,
    pub axis: Option<String>,
    pub keyframes: Vec<SecondaryAnimationCurveKeyframe>,
}

/// The model of a [`SecondaryAnimationCurve`].
#[verifier::ext_equal]
pub struct SecondaryCurveModel {
    pub kind: Seq<char>,
    pub axis: Option<Seq<char>>,
    pub keyframes: Seq<SecondaryKeyframeModel>,
}

impl View for SecondaryAnimationCurve {
    type V = SecondaryCurveModel;

    open spec fn view(&self) -> SecondaryCurveModel {
        SecondaryCurveModel {
            kind: self.kind@,
            axis: error::optional_text(self.axis),
            keyframes: error::views(self.keyframes@),
        }
    }
}

impl SecondaryAnimationCurve {
    /// Curve type, such as the observed `ImageCelName` or `AudioPlayer`.
    #[must_use]
    pub fn kind(&self) -> (text: &str)
        ensures
            text@ == self.kind@,
    {
        self.kind.as_str()
    }

    /// Optional component axis for vector parameters, such as `X` or `Y`.
    #[must_use]
    pub fn axis(&self) -> (text: Option<&str>)
        ensures
            text is Some == self.axis is Some,
            text matches Some(text) ==> text@ == self.axis.unwrap()@,
    {
        match &self.axis {
            Some(text) => Some(text.as_str()),
            None => None,
        }
    }

    /// Sorted validated double-precision keys.
    #[must_use]
    pub fn keyframes(&self) -> (list: &[SecondaryAnimationCurveKeyframe])
        ensures
            list@ == self.keyframes@,
    {
        self.keyframes.as_slice()
    }
}

/// The failure of a position past the end of the data.
pub open spec fn past_end(end: int, complaint: Seq<char>) -> Failure {
    if end > usize::MAX {
        Failure::OffsetOverflow
    } else {
        Failure::InvalidAnimation { reason: complaint }
    }
}

/// The number in the four bytes at a position.
pub open spec fn word_at(data: Seq<u8>, at: int) -> Result<u32, Failure> {
    if at + 4 > data.len() {
        Err(past_end(at + 4, "truncated animation mixer integer"@))
    } else {
        Ok(bytes::le32(data, at) as u32)
    }
}

fn end_after(data: &[u8], at: usize, size: usize, complaint: &str) -> (end: Result<usize, Error>)
    requires
        at <= data@.len(),
    ensures
        match end {
            Ok(end) => end == at + size && end <= data@.len(),
            Err(error) => at + size > data@.len() && error@ == past_end(at + size, complaint@),
        },
{
    assert(data.len() == data@.len());
    match at.checked_add(size) {
        Some(end) => if end > data.len() {
            Err(animation_error(Message::new(complaint)))
        } else {
            Ok(end)
        },
        None => Err(Error::OffsetOverflow),
    }
}

fn read_word(data: &[u8], at: usize) -> (word: Result<u32, Error>)
    requires
        at <= data@.len(),
    ensures
        error::plain(word) == word_at(data@, at as int),
        word is Ok ==> at + 4 <= data@.len(),
{
    let _ = end_after(data, at, 4, "truncated animation mixer integer")?;
    Ok(read_le32(data, at))
}

/// The strings from `at` on, after the strings `found` before, and where they end.
pub open spec fn strings_from(data: Seq<u8>, count: int, at: int, found: Seq<Seq<char>>) -> Result<
    (Seq<Seq<char>>, int),
    Failure,
>
    decreases count - found.len(),
{
    if found.len() >= count {
        Ok((found, at))
    } else if at >= data.len() {
        Err(
            Failure::InvalidAnimation { reason: "truncated animation mixer string length"@ },
        )
    } else {
        let end = at + 1 + data[at];
        if end > data.len() {
            Err(past_end(end, "truncated animation mixer string"@))
        } else {
            match text_codec::utf8_text(data.subrange(at + 1, end)) {
                None => Err(
                    Failure::InvalidAnimation { reason: "animation mixer string is not UTF-8"@ },
                ),
                Some(text) => strings_from(data, count, end, found.push(text)),
            }
        }
    }
}

/// The signature of a mixer of version 1.0.
pub open spec fn old_signature() -> Seq<u8> {
    seq![0x63u8, 0x6d, 0x74, 0x20, 0x30, 0x31, 0x30, 0x30, 0x62, 0x69, 0x6e, 0x63]
}

/// The signature of a mixer of version 1.1.
pub open spec fn new_signature() -> Seq<u8> {
    seq![0x63u8, 0x6d, 0x74, 0x20, 0x30, 0x31, 0x31, 0x30, 0x62, 0x69, 0x6e, 0x63]
}

/// The failure of too many items.
pub open spec fn too_many(resource: Seq<char>, count: int, limit: u64) -> Failure {
    Failure::LimitExceeded { resource, value: count as u64, limit }
}

/// The strings of a mixer, and where they end.
pub open spec fn string_table_of(data: Seq<u8>, limits: Limits) -> Result<
    (Seq<Seq<char>>, int),
    Failure,
> {
    let count = bytes::le32(data, 16);
    if data.len() < 20 || !(bytes::has_bytes_at(data, 0, old_signature()) || bytes::has_bytes_at(
        data,
        0,
        new_signature(),
    )) {
        Err(Failure::InvalidAnimation { reason: "unsupported animation mixer signature"@ })
    } else if count > limits.max_animation_items {
        Err(too_many("animation mixer strings"@, count, limits.max_animation_items))
    } else {
        strings_from(data, count, 20, Seq::empty())
    }
}

fn check_limit(value: u64, limit: u64, resource: &'static str) -> (result: Result<(), Error>)
    ensures
        error::plain(result) == if value > limit {
            Err::<(), Failure>(too_many(resource@, value as int, limit))
        } else {
            Ok(())
        },
{
    if value > limit {
        return Err(Error::limit(resource, value, limit));
    }
    Ok(())
}

/// Reads the strings of a mixer, and where they end.
pub fn parse_string_table(data: &[u8], limits: Limits) -> (table: Result<
    (Vec<String>, usize),
    Error,
>)
    ensures
        match table {
            Ok((strings, end)) => string_table_of(data@, limits) == Ok::<
                (Seq<Seq<char>>, int),
                Failure,
            >((error::views(strings@), end as int)) && end <= data@.len() && data@.len() >= 20,
            Err(error) => string_table_of(data@, limits) == Err::<(Seq<Seq<char>>, int), Failure>(
                error@,
            ),
        },
{
    assert(data.len() == data@.len());
    let old: [u8; 12] = [0x63, 0x6d, 0x74, 0x20, 0x30, 0x31, 0x30, 0x30, 0x62, 0x69, 0x6e, 0x63];
    let new: [u8; 12] = [0x63, 0x6d, 0x74, 0x20, 0x30, 0x31, 0x31, 0x30, 0x62, 0x69, 0x6e, 0x63];
    assert(old@ =~= old_signature());
    assert(new@ =~= new_signature());
    if data.len() < 20 || !(bytes_match(data, 0, &old) || bytes_match(data, 0, &new)) {
        return Err(animation_error(Message::new("unsupported animation mixer signature")));
    }
    let count: u32 = read_le32(data, 16);
    check_limit(count as u64, limits.max_animation_items(), "animation mixer strings")?;
    let mut strings: Vec<String> = Vec::new();
    let mut at: usize = 20;
    assert(error::views(strings@) =~= Seq::<Seq<char>>::empty());
    while strings.len() < count as usize
        invariant
            strings@.len() <= count,
            at <= data@.len(),
            data.len() == data@.len(),
            strings_from(data@, count as int, 20, Seq::empty()) == strings_from(
                data@,
                count as int,
                at as int,
                error::views(strings@),
            ),
            string_table_of(data@, limits) == strings_from(data@, count as int, 20, Seq::empty()),
        decreases count - strings@.len(),
    {
        if at >= data.len() {
            return Err(animation_error(Message::new("truncated animation mixer string length")));
        }
        let end: usize = end_after(
            data,
            at + 1,
            data[at] as usize,
            "truncated animation mixer string",
        )?;
        let encoded = copy_bytes(data, at + 1, end);
        match decode_utf8(encoded.as_slice()) {
            Some(text) => {
                proof {
                    error::views_push(strings@, text);
                }
                strings.push(text);
            },
            None => {
                return Err(animation_error(Message::new("animation mixer string is not UTF-8")));
            },
        }
        at = end;
    }
    Ok((strings, at))
}

/// The position of the first of these strings that is the one wanted, or their number.
pub open spec fn string_position(strings: Seq<Seq<char>>, wanted: Seq<char>, at: int) -> int
    decreases strings.len() - at,
{
    if at >= strings.len() {
        strings.len() as int
    } else if strings[at] == wanted {
        at
    } else {
        string_position(strings, wanted, at + 1)
    }
}

/// The number of a string, where it has one.
pub open spec fn string_id_of(strings: Seq<Seq<char>>, wanted: Seq<char>) -> Option<u32> {
    let position = string_position(strings, wanted, 0);
    if position < strings.len() && position <= u32::MAX {
        Some(position as u32)
    } else {
        None
    }
}

fn string_id(strings: &[String], wanted: &str) -> (id: Option<u32>)
    ensures
        id == string_id_of(error::views(strings@), wanted@),
{
    let ghost models = error::views(strings@);
    let mut at: usize = 0;
    while at < strings.len()
        invariant
            at <= strings@.len(),
            models == error::views(strings@),
            string_position(models, wanted@, 0) == string_position(models, wanted@, at as int),
        decreases strings@.len() - at,
    {
        assert(models[at as int] == strings@[at as int]@);
        if same_text(strings[at].as_str(), wanted) {
            if at as u64 > u32::MAX as u64 {
                return None;
            }
            return Some(at as u32);
        }
        at = at + 1;
    }
    None
}

/// The start of a curve: what it is named, and where its fields start.
#[verifier::ext_equal]
pub struct HeaderModel {
    pub at: int,
    pub kind: Seq<char>,
    pub axis: Option<Seq<char>>,
}

/// The names among the properties from `at` on, of which `left` are left.
pub open spec fn properties_from(
    data: Seq<u8>,
    strings: Seq<Seq<char>>,
    at: int,
    left: nat,
    kind: Option<Seq<char>>,
    axis: Option<Seq<char>>,
) -> Option<HeaderModel>
    decreases left,
{
    if left == 0 {
        match kind {
            Some(kind) => Some(HeaderModel { at, kind, axis }),
            None => None,
        }
    } else if at + 8 > data.len() {
        None
    } else {
        let property = bytes::le32(data, at);
        let value = bytes::le32(data, at + 4);
        if property >= strings.len() || value >= strings.len() {
            None
        } else {
            let rest = (left - 1) as nat;
            if strings[property] == "Type"@ {
                if kind is Some {
                    None
                } else {
                    properties_from(data, strings, at + 8, rest, Some(strings[value]), axis)
                }
            } else if strings[property] == "Axis"@ {
                if axis is Some {
                    None
                } else {
                    properties_from(data, strings, at + 8, rest, kind, Some(strings[value]))
                }
            } else {
                properties_from(data, strings, at + 8, rest, kind, axis)
            }
        }
    }
}

/// The start of a curve at a position, if there is one.
pub open spec fn header_at(data: Seq<u8>, strings: Seq<Seq<char>>, fcurve: u32, at: int) -> Option<
    HeaderModel,
> {
    if at + 12 > data.len() || bytes::le32(data, at) != fcurve || bytes::le32(data, at + 4) != 0
        || !(1 <= bytes::le32(data, at + 8) <= 8) {
        None
    } else {
        properties_from(
            data,
            strings,
            at + 12,
            bytes::le32(data, at + 8) as nat,
            None,
            None,
        )
    }
}

/// The start of a curve: what it is named, and where its fields start.
pub struct CurveHeader {
    pub at: usize,
    pub kind: String,
    pub axis: Option<String>,
}

impl View for CurveHeader {
    type V = HeaderModel;

    open spec fn view(&self) -> HeaderModel {
        HeaderModel {
            at: self.at as int,
            kind: self.kind@,
            axis: error::optional_text(self.axis),
        }
    }
}

/// Finds the start of a curve at a position, if there is one.
#[verifier::spinoff_prover]
fn curve_header(data: &[u8], strings: &[String], fcurve: u32, start: usize) -> (header: Option<
    CurveHeader,
>)
    requires
        start + 12 <= data@.len(),
    ensures
        error::optional(header) == header_at(
            data@,
            error::views(strings@),
            fcurve,
            start as int,
        ),
        header matches Some(header) ==> header.at <= data@.len(),
{
    assert(data.len() == data@.len());
    let ghost models = error::views(strings@);
    let count: u32 = read_le32(data, start + 8);
    if read_le32(data, start) != fcurve || read_le32(data, start + 4) != 0 || count < 1 || count > 8 {
        return None;
    }
    let mut at: usize = start + 12;
    let mut left: u32 = count;
    let mut kind: Option<String> = None;
    let mut axis: Option<String> = None;
    while left > 0
        invariant
            left <= count <= 8,
            at <= data@.len(),
            data.len() == data@.len(),
            models == error::views(strings@),
            header_at(data@, models, fcurve, start as int) == properties_from(
                data@,
                models,
                at as int,
                left as nat,
                error::optional_text(kind),
                error::optional_text(axis),
            ),
        decreases left,
    {
        if data.len() - at < 8 {
            return None;
        }
        let property: usize = read_le32(data, at) as usize;
        let value: usize = read_le32(data, at + 4) as usize;
        if property >= strings.len() || value >= strings.len() {
            return None;
        }
        assert(models[property as int] == strings@[property as int]@);
        assert(models[value as int] == strings@[value as int]@);
        let is_kind: bool = same_text(strings[property].as_str(), "Type");
        if is_kind {
            if kind.is_some() {
                return None;
            }
            kind = Some(strings[value].clone());
        } else if same_text(strings[property].as_str(), "Axis") {
            if axis.is_some() {
                return None;
            }
            axis = Some(strings[value].clone());
        }
        at = at + 8;
        left = left - 1;
    }
    match kind {
        Some(kind) => Some(CurveHeader { at, kind, axis }),
        None => None,
    }
}

/// The arrays that the fields of a curve hold. Numbers stand as their bits: those of a
/// double-precision number in a wide curve, else those of a single-precision one.
#[verifier::ext_equal]
pub struct FieldsModel {
    pub frames: Option<Seq<u64>>,
    pub values: Option<Seq<u64>>,
    pub tags: Option<Seq<Seq<char>>>,
    pub interpolation: Option<Seq<Seq<char>>>,
    pub left_slopes: Option<Seq<u64>>,
    pub right_slopes: Option<Seq<u64>>,
    pub revise_constant: Option<Seq<u8>>,
}

/// No arrays yet.
pub open spec fn no_fields() -> FieldsModel {
    FieldsModel {
        frames: None,
        values: None,
        tags: None,
        interpolation: None,
        left_slopes: None,
        right_slopes: None,
        revise_constant: None,
    }
}

/// How a number is stored.
#[derive(Clone, Copy, Debug, PartialEq, Eq, Structural)]
pub enum NumberForm {
    /// In four bytes, and kept so.
    Narrow,
    /// In four bytes, and widened.
    Widened,
    /// In eight bytes.
    Wide,
}

/// How many bytes a number takes.
pub open spec fn number_size(form: NumberForm) -> int {
    match form {
        NumberForm::Wide => 8,
        _ => 4,
    }
}

/// What is said where a number is cut off.
pub open spec fn number_complaint(form: NumberForm) -> Seq<char> {
    match form {
        NumberForm::Wide => "truncated secondary animation mixer integer"@,
        _ => "truncated animation mixer integer"@,
    }
}

/// The bits of the number at a position.
pub open spec fn number_at(data: Seq<u8>, at: int, form: NumberForm) -> u64 {
    match form {
        NumberForm::Narrow => bytes::le32(data, at) as u64,
        NumberForm::Widened => (Single { bits: bytes::le32(data, at) as u32 }).widened(),
        NumberForm::Wide => bytes::le64(data, at) as u64,
    }
}

/// The numbers from `at` on, after the numbers `found`, and where they end.
pub open spec fn numbers_from(
    data: Seq<u8>,
    form: NumberForm,
    count: int,
    at: int,
    found: Seq<u64>,
) -> Result<(Seq<u64>, int), Failure>
    decreases count - found.len(),
{
    if found.len() >= count {
        Ok((found, at))
    } else if at + number_size(form) > data.len() {
        Err(past_end(at + number_size(form), number_complaint(form)))
    } else {
        numbers_from(
            data,
            form,
            count,
            at + number_size(form),
            found.push(number_at(data, at, form)),
        )
    }
}

fn read_numbers(data: &[u8], form: NumberForm, count: usize, start: usize) -> (numbers: Result<
    (Vec<u64>, usize),
    Error,
>)
    requires
        start <= data@.len(),
    ensures
        match numbers {
            Ok((numbers, end)) => numbers_from(
                data@,
                form,
                count as int,
                start as int,
                Seq::empty(),
            ) == Ok::<(Seq<u64>, int), Failure>((numbers@, end as int)) && end <= data@.len(),
            Err(error) => numbers_from(
                data@,
                form,
                count as int,
                start as int,
                Seq::empty(),
            ) == Err::<(Seq<u64>, int), Failure>(error@),
        },
{
    let mut numbers: Vec<u64> = Vec::new();
    let mut at: usize = start;
    let size: usize = match form {
        NumberForm::Wide => 8,
        _ => 4,
    };
    while numbers.len() < count
        invariant
            numbers@.len() <= count,
            at <= data@.len(),
            size == number_size(form),
            numbers_from(data@, form, count as int, start as int, Seq::empty()) == numbers_from(
                data@,
                form,
                count as int,
                at as int,
                numbers@,
            ),
        decreases count - numbers@.len(),
    {
        let end: usize = end_after(
            data,
            at,
            size,
            match form {
                NumberForm::Wide => "truncated secondary animation mixer integer",
                _ => "truncated animation mixer integer",
            },
        )?;
        let number: u64 = match form {
            NumberForm::Narrow => read_le32(data, at) as u64,
            NumberForm::Widened => Single::from_bits(read_le32(data, at)).widen().bits(),
            NumberForm::Wide => read_le64(data, at),
        };
        numbers.push(number);
        at = end;
    }
    Ok((numbers, at))
}

/// The strings that the numbers from `at` on name, after the strings `found`, and where
/// they end.
pub open spec fn names_from(
    data: Seq<u8>,
    strings: Seq<Seq<char>>,
    count: int,
    at: int,
    found: Seq<Seq<char>>,
) -> Result<(Seq<Seq<char>>, int), Failure>
    decreases count - found.len(),
{
    if found.len() >= count {
        Ok((found, at))
    } else {
        match word_at(data, at) {
            Err(failure) => Err(failure),
            Ok(id) => if id >= strings.len() {
                Err(unknown_name(id))
            } else {
                names_from(data, strings, count, at + 4, found.push(strings[id as int]))
            },
        }
    }
}

/// The failure of a string that is not in the table.
pub open spec fn unknown_name(id: u32) -> Failure {
    Failure::InvalidAnimation {
        reason: "animation string index "@ + message::decimal(id as nat) + " is out of range"@,
    }
}

fn unknown_string(id: u32) -> (error: Error)
    ensures
        error@ == unknown_name(id),
{
    animation_error(
        Message::new("animation string index ").number(id as u64).text(" is out of range"),
    )
}

fn read_names(data: &[u8], strings: &[String], count: usize, start: usize) -> (names: Result<
    (Vec<String>, usize),
    Error,
>)
    requires
        start <= data@.len(),
    ensures
        match names {
            Ok((names, end)) => names_from(
                data@,
                error::views(strings@),
                count as int,
                start as int,
                Seq::empty(),
            ) == Ok::<(Seq<Seq<char>>, int), Failure>((error::views(names@), end as int)) && end
                <= data@.len(),
            Err(error) => names_from(
                data@,
                error::views(strings@),
                count as int,
                start as int,
                Seq::empty(),
            ) == Err::<(Seq<Seq<char>>, int), Failure>(error@),
        },
{
    let ghost models = error::views(strings@);
    assert(data.len() == data@.len());
    let mut names: Vec<String> = Vec::new();
    let mut at: usize = start;
    assert(error::views(names@) =~= Seq::<Seq<char>>::empty());
    while names.len() < count
        invariant
            names@.len() <= count,
            at <= data@.len(),
            data.len() == data@.len(),
            models == error::views(strings@),
            names_from(data@, models, count as int, start as int, Seq::empty()) == names_from(
                data@,
                models,
                count as int,
                at as int,
                error::views(names@),
            ),
        decreases count - names@.len(),
    {
        let id: u32 = read_word(data, at)?;
        if id as usize >= strings.len() {
            return Err(unknown_string(id));
        }
        assert(models[id as int] == strings@[id as int]@);
        let name = strings[id as usize].clone();
        proof {
            error::views_push(names@, name);
        }
        names.push(name);
        at = at + 4;
    }
    Ok((names, at))
}

/// The size of one element of an array that is passed over, where its type is known.
pub open spec fn element_size(wide: bool, kind: Seq<char>) -> Option<int> {
    if kind == "Single[]"@ || kind == "String[]"@ || kind == "Int32[]"@ || (wide && kind
        == "UInt32[]"@) {
        Some(4)
    } else if kind == "Byte[]"@ {
        Some(1)
    } else if kind == "Float2[]"@ || (wide && kind == "Double[]"@) {
        Some(8)
    } else if kind == "Float3[]"@ {
        Some(12)
    } else if kind == "Quat[]"@ {
        Some(
            if wide {
                32
            } else {
                16
            },
        )
    } else if kind == "Matrix44[]"@ {
        Some(
            if wide {
                128
            } else {
                64
            },
        )
    } else if wide && kind == "Double2[]"@ {
        Some(16)
    } else if wide && kind == "Double3[]"@ {
        Some(24)
    } else {
        None
    }
}

fn size_of_element(wide: bool, kind: &str) -> (size: Option<usize>)
    ensures
        match size {
            Some(size) => element_size(wide, kind@) == Some(size as int),
            None => element_size(wide, kind@) is None,
        },
{
    if same_text(kind, "Single[]") || same_text(kind, "String[]") || same_text(kind, "Int32[]") || (
    wide && same_text(kind, "UInt32[]")) {
        Some(4)
    } else if same_text(kind, "Byte[]") {
        Some(1)
    } else if same_text(kind, "Float2[]") || (wide && same_text(kind, "Double[]")) {
        Some(8)
    } else if same_text(kind, "Float3[]") {
        Some(12)
    } else if same_text(kind, "Quat[]") {
        Some(
            if wide {
                32
            } else {
                16
            },
        )
    } else if same_text(kind, "Matrix44[]") {
        Some(
            if wide {
                128
            } else {
                64
            },
        )
    } else if wide && same_text(kind, "Double2[]") {
        Some(16)
    } else if wide && same_text(kind, "Double3[]") {
        Some(24)
    } else {
        None
    }
}

/// How the numbers of an array are stored, if its type is one of numbers.
pub open spec fn number_form(wide: bool, kind: Seq<char>) -> Option<NumberForm> {
    if wide && kind == "Double[]"@ {
        Some(NumberForm::Wide)
    } else if kind == "Single[]"@ {
        Some(
            if wide {
                NumberForm::Widened
            } else {
                NumberForm::Narrow
            },
        )
    } else {
        None
    }
}

/// Whether a field holds numbers.
pub open spec fn number_field(field: Seq<char>) -> bool {
    field == "Frame"@ || field == "Value"@ || field == "LeftSlope"@ || field == "RightSlope"@
}

/// The arrays with the numbers of one more field.
pub open spec fn with_numbers(
    fields: FieldsModel,
    field: Seq<char>,
    numbers: Seq<u64>,
) -> FieldsModel {
    if field == "Frame"@ {
        FieldsModel { frames: Some(numbers), ..fields }
    } else if field == "Value"@ {
        FieldsModel { values: Some(numbers), ..fields }
    } else if field == "LeftSlope"@ {
        FieldsModel { left_slopes: Some(numbers), ..fields }
    } else {
        FieldsModel { right_slopes: Some(numbers), ..fields }
    }
}

/// What an array of `count` elements at `at` adds to the fields, and where it ends.
pub open spec fn array_at(
    data: Seq<u8>,
    strings: Seq<Seq<char>>,
    wide: bool,
    field: Seq<char>,
    kind: Seq<char>,
    count: int,
    at: int,
    fields: FieldsModel,
) -> Result<(FieldsModel, int), Failure> {
    if number_form(wide, kind) is Some && number_field(field) {
        match numbers_from(data, number_form(wide, kind)->Some_0, count, at, Seq::empty()) {
            Err(failure) => Err(failure),
            Ok((numbers, end)) => Ok((with_numbers(fields, field, numbers), end)),
        }
    } else if kind == "String[]"@ && (field == "Tag"@ || field == "Interp"@) {
        match names_from(data, strings, count, at, Seq::empty()) {
            Err(failure) => Err(failure),
            Ok((names, end)) => Ok(
                (
                    if field == "Tag"@ {
                        FieldsModel { tags: Some(names), ..fields }
                    } else {
                        FieldsModel { interpolation: Some(names), ..fields }
                    },
                    end,
                ),
            ),
        }
    } else if kind == "Byte[]"@ && field == "ReviseConstant"@ {
        if at + count > data.len() {
            Err(
                past_end(
                    at + count,
                    if wide {
                        "truncated secondary ReviseConstant array"@
                    } else {
                        "truncated ReviseConstant array"@
                    },
                ),
            )
        } else {
            Ok(
                (
                    FieldsModel {
                        revise_constant: Some(data.subrange(at, at + count)),
                        ..fields
                    },
                    at + count,
                ),
            )
        }
    } else {
        match element_size(wide, kind) {
            None => Err(
                Failure::InvalidAnimation {
                    reason: (if wide {
                        "unsupported secondary FCurve field type "@
                    } else {
                        "unsupported FCurve field type "@
                    }) + message::quoted_text(kind) + " for "@ + message::quoted_text(field),
                },
            ),
            Some(size) => if count * size > usize::MAX {
                Err(Failure::OffsetOverflow)
            } else if at + count * size > data.len() {
                Err(past_end(at + count * size, "truncated animation mixer array"@))
            } else {
                Ok((fields, at + count * size))
            },
        }
    }
}

/// The arrays that the fields of a curve hold.
pub struct CurveFields {
    pub frames: Option<Vec<u64>>,
    pub values: Option<Vec<u64>>,
    pub tags: Option<Vec<String>>,
    pub interpolation: Option<Vec<String>>,
    pub left_slopes: Option<Vec<u64>>,
    pub right_slopes: Option<Vec<u64>>,
    pub revise_constant: Option<Vec<u8>>,
}

/// The model of numbers that may be absent.
pub open spec fn optional_numbers(numbers: Option<Vec<u64>>) -> Option<Seq<u64>> {
    match numbers {
        Some(numbers) => Some(numbers@),
        None => None,
    }
}

/// The model of texts that may be absent.
pub open spec fn optional_names(names: Option<Vec<String>>) -> Option<Seq<Seq<char>>> {
    match names {
        Some(names) => Some(error::views(names@)),
        None => None,
    }
}

impl View for CurveFields {
    type V = FieldsModel;

    open spec fn view(&self) -> FieldsModel {
        FieldsModel {
            frames: optional_numbers(self.frames),
            values: optional_numbers(self.values),
            tags: optional_names(self.tags),
            interpolation: optional_names(self.interpolation),
            left_slopes: optional_numbers(self.left_slopes),
            right_slopes: optional_numbers(self.right_slopes),
            revise_constant: error::optional_bytes(self.revise_constant),
        }
    }
}

fn form_of_numbers(wide: bool, kind: &str) -> (form: Option<NumberForm>)
    ensures
        form == number_form(wide, kind@),
{
    if wide && same_text(kind, "Double[]") {
        Some(NumberForm::Wide)
    } else if same_text(kind, "Single[]") {
        Some(
            if wide {
                NumberForm::Widened
            } else {
                NumberForm::Narrow
            },
        )
    } else {
        None
    }
}

fn holds_numbers(field: &str) -> (found: bool)
    ensures
        found == number_field(field@),
{
    same_text(field, "Frame") || same_text(field, "Value") || same_text(field, "LeftSlope")
        || same_text(field, "RightSlope")
}

#[verifier::spinoff_prover]
fn read_array(
    data: &[u8],
    strings: &[String],
    wide: bool,
    field: &str,
    kind: &str,
    count: usize,
    at: usize,
    fields: &mut CurveFields,
) -> (end: Result<usize, Error>)
    requires
        at <= data@.len(),
    ensures
        match end {
            Ok(end) => array_at(
                data@,
                error::views(strings@),
                wide,
                field@,
                kind@,
                count as int,
                at as int,
                old(fields)@,
            ) == Ok::<(FieldsModel, int), Failure>((final(fields)@, end as int)) && end
                <= data@.len(),
            Err(error) => array_at(
                data@,
                error::views(strings@),
                wide,
                field@,
                kind@,
                count as int,
                at as int,
                old(fields)@,
            ) == Err::<(FieldsModel, int), Failure>(error@),
        },
{
    if holds_numbers(field) {
        if let Some(form) = form_of_numbers(wide, kind) {
            let (numbers, end) = read_numbers(data, form, count, at)?;
            if same_text(field, "Frame") {
                fields.frames = Some(numbers);
            } else if same_text(field, "Value") {
                fields.values = Some(numbers);
            } else if same_text(field, "LeftSlope") {
                fields.left_slopes = Some(numbers);
            } else {
                fields.right_slopes = Some(numbers);
            }
            return Ok(end);
        }
    }
    if same_text(kind, "String[]") && (same_text(field, "Tag") || same_text(field, "Interp")) {
        let (names, end) = read_names(data, strings, count, at)?;
        if same_text(field, "Tag") {
            fields.tags = Some(names);
        } else {
            fields.interpolation = Some(names);
        }
        return Ok(end);
    }
    if same_text(kind, "Byte[]") && same_text(field, "ReviseConstant") {
        let end: usize = end_after(
            data,
            at,
            count,
            if wide {
                "truncated secondary ReviseConstant array"
            } else {
                "truncated ReviseConstant array"
            },
        )?;
        fields.revise_constant = Some(copy_bytes(data, at, end));
        return Ok(end);
    }
    let size: usize = match size_of_element(wide, kind) {
        Some(size) => size,
        None => {
            return Err(
                animation_error(
                    Message::new(
                        if wide {
                            "unsupported secondary FCurve field type "
                        } else {
                            "unsupported FCurve field type "
                        },
                    ).quoted(kind).text(" for ").quoted(field),
                ),
            );
        },
    };
    let length: usize = match count.checked_mul(size) {
        Some(length) => length,
        None => return Err(Error::OffsetOverflow),
    };
    end_after(data, at, length, "truncated animation mixer array")
}

/// Whether the fields of a secondary curve have their three numbers before them.
pub open spec fn field_meta(data: Seq<u8>, at: int, count: int, int32: u32) -> bool {
    at + 12 <= data.len() && bytes::le32(data, at) == int32 && bytes::le32(data, at + 4) < count
        && bytes::le32(data, at + 8) < count
}

fn has_field_meta(data: &[u8], at: usize, count: usize, int32: u32) -> (found: bool)
    requires
        at <= data@.len(),
    ensures
        found == field_meta(data@, at as int, count as int, int32),
{
    assert(data.len() == data@.len());
    data.len() - at >= 12 && read_le32(data, at) == int32 && (read_le32(data, at + 4) as usize)
        < count && (read_le32(data, at + 8) as usize) < count
}

/// What kind of curves a mixer holds, and the strings that they are read with.
pub struct MixerModel {
    pub strings: Seq<Seq<char>>,
    pub wide: bool,
    pub int32: u32,
    pub limit: u64,
}

/// The name under which array items are limited.
pub open spec fn items_resource(wide: bool) -> Seq<char> {
    if wide {
        "secondary animation mixer array items"@
    } else {
        "animation mixer array items"@
    }
}

/// What the field at `at` adds to the arrays, and where it ends.
pub open spec fn field_at(
    data: Seq<u8>,
    mixer: MixerModel,
    curve: Seq<char>,
    at: int,
    fields: FieldsModel,
) -> Result<(FieldsModel, int), Failure> {
    let base = if mixer.wide {
        at + 12
    } else {
        at
    };
    if mixer.wide && !field_meta(data, at, mixer.strings.len() as int, mixer.int32) {
        Err(
            Failure::InvalidAnimation {
                reason: "secondary FCurve "@ + curve + " has an invalid field metadata header"@,
            },
        )
    } else {
        match word_at(data, base) {
            Err(failure) => Err(failure),
            Ok(field) => match word_at(data, base + 4) {
                Err(failure) => Err(failure),
                Ok(kind) => if field >= mixer.strings.len() {
                    Err(unknown_name(field))
                } else if kind >= mixer.strings.len() {
                    Err(unknown_name(kind))
                } else {
                    match word_at(data, base + 8) {
                        Err(failure) => Err(failure),
                        Ok(count) => if count > mixer.limit {
                            Err(too_many(items_resource(mixer.wide), count as int, mixer.limit))
                        } else {
                            match array_at(
                                data,
                                mixer.strings,
                                mixer.wide,
                                mixer.strings[field as int],
                                mixer.strings[kind as int],
                                count as int,
                                base + 12,
                                fields,
                            ) {
                                Err(failure) => Err(failure),
                                Ok((next, end)) => ended(
                                    data,
                                    mixer.wide,
                                    mixer.strings[field as int],
                                    next,
                                    end,
                                ),
                            }
                        },
                    }
                },
            },
        }
    }
}

/// The arrays, if the field that ends at `end` is followed by two zeros.
pub open spec fn ended(
    data: Seq<u8>,
    wide: bool,
    field: Seq<char>,
    fields: FieldsModel,
    end: int,
) -> Result<(FieldsModel, int), Failure> {
    match word_at(data, end) {
        Err(failure) => Err(failure),
        Ok(first) => match word_at(data, end + 4) {
            Err(failure) => Err(failure),
            Ok(second) => if first != 0 || second != 0 {
                Err(
                    Failure::InvalidAnimation {
                        reason: (if wide {
                            "secondary FCurve field "@
                        } else {
                            "FCurve field "@
                        }) + message::quoted_text(field) + " has a nonzero terminator"@,
                    },
                )
            } else {
                Ok((fields, end + 8))
            },
        },
    }
}

/// The arrays after the fields from `at` on, of which `left` are left.
pub open spec fn fields_from(
    data: Seq<u8>,
    mixer: MixerModel,
    curve: Seq<char>,
    left: nat,
    at: int,
    fields: FieldsModel,
) -> Result<FieldsModel, Failure>
    decreases left,
{
    if left == 0 {
        Ok(fields)
    } else {
        match field_at(data, mixer, curve, at, fields) {
            Err(failure) => Err(failure),
            Ok((next, end)) => fields_from(data, mixer, curve, (left - 1) as nat, end, next),
        }
    }
}

/// What a mixer is read with.
pub struct Mixer<'a> {
    pub strings: &'a [String],
    pub wide: bool,
    pub int32: u32,
    pub limit: u64,
}

impl<'a> View for Mixer<'a> {
    type V = MixerModel;

    open spec fn view(&self) -> MixerModel {
        MixerModel {
            strings: error::views(self.strings@),
            wide: self.wide,
            int32: self.int32,
            limit: self.limit,
        }
    }
}

fn read_field(
    data: &[u8],
    mixer: &Mixer,
    curve: &str,
    at: usize,
    fields: &mut CurveFields,
) -> (end: Result<usize, Error>)
    requires
        at <= data@.len(),
    ensures
        match end {
            Ok(end) => field_at(data@, mixer@, curve@, at as int, old(fields)@) == Ok::<
                (FieldsModel, int),
                Failure,
            >((final(fields)@, end as int)) && end <= data@.len(),
            Err(error) => field_at(data@, mixer@, curve@, at as int, old(fields)@) == Err::<
                (FieldsModel, int),
                Failure,
            >(error@),
        },
{
    assert(data.len() == data@.len());
    let ghost strings = mixer@.strings;
    let mut base: usize = at;
    if mixer.wide {
        if !has_field_meta(data, at, mixer.strings.len(), mixer.int32) {
            return Err(
                animation_error(
                    Message::new("secondary FCurve ").text(curve).text(
                        " has an invalid field metadata header",
                    ),
                ),
            );
        }
        base = at + 12;
    }
    let field: u32 = read_word(data, base)?;
    let kind: u32 = read_word(data, base + 4)?;
    if field as usize >= mixer.strings.len() {
        return Err(unknown_string(field));
    }
    if kind as usize >= mixer.strings.len() {
        return Err(unknown_string(kind));
    }
    let count: u32 = read_word(data, base + 8)?;
    if mixer.wide {
        check_limit(count as u64, mixer.limit, "secondary animation mixer array items")?;
    } else {
        check_limit(count as u64, mixer.limit, "animation mixer array items")?;
    }
    assert(strings[field as int] == mixer.strings@[field as int]@);
    assert(strings[kind as int] == mixer.strings@[kind as int]@);
    let end: usize = read_array(
        data,
        mixer.strings,
        mixer.wide,
        mixer.strings[field as usize].as_str(),
        mixer.strings[kind as usize].as_str(),
        count as usize,
        base + 12,
        fields,
    )?;
    let first: u32 = read_word(data, end)?;
    let second: u32 = read_word(data, end + 4)?;
    if first != 0 || second != 0 {
        return Err(
            animation_error(
                Message::new(
                    if mixer.wide {
                        "secondary FCurve field "
                    } else {
                        "FCurve field "
                    },
                ).quoted(mixer.strings[field as usize].as_str()).text(" has a nonzero terminator"),
            ),
        );
    }
    Ok(end + 8)
}

fn read_fields(data: &[u8], mixer: &Mixer, curve: &str, count: u32, start: usize) -> (fields:
    Result<CurveFields, Error>)
    requires
        start <= data@.len(),
    ensures
        error::outcome(fields) == fields_from(
            data@,
            mixer@,
            curve@,
            count as nat,
            start as int,
            no_fields(),
        ),
{
    let mut fields = CurveFields {
        frames: None,
        values: None,
        tags: None,
        interpolation: None,
        left_slopes: None,
        right_slopes: None,
        revise_constant: None,
    };
    let mut at: usize = start;
    let mut left: u32 = count;
    while left > 0
        invariant
            at <= data@.len(),
            fields_from(data@, mixer@, curve@, count as nat, start as int, no_fields()) == fields_from(
                data@,
                mixer@,
                curve@,
                left as nat,
                at as int,
                fields@,
            ),
        decreases left,
    {
        at = read_field(data, mixer, curve, at, &mut fields)?;
        left = left - 1;
    }
    Ok(fields)
}

/// Whether the bits are those of a finite number.
pub open spec fn number_finite(wide: bool, bits: u64) -> bool {
    if wide {
        (Double { bits }).finite()
    } else {
        (Single { bits: bits as u32 }).finite()
    }
}

/// Where a number stands among the others.
pub open spec fn number_order(wide: bool, bits: u64) -> int {
    if wide {
        (Double { bits }).order()
    } else {
        (Single { bits: bits as u32 }).order()
    }
}

/// Whether an array is as long as expected, if it is there.
pub open spec fn length_agrees<T>(array: Option<Seq<T>>, count: int) -> bool {
    array matches Some(array) ==> array.len() == count
}

/// Whether numbers are finite.
pub open spec fn all_finite(wide: bool, numbers: Seq<u64>) -> bool {
    forall|i: int| 0 <= i < numbers.len() ==> number_finite(wide, #[trigger] numbers[i])
}

/// Whether no number is larger than the one after it.
pub open spec fn in_time_order(wide: bool, numbers: Seq<u64>) -> bool {
    forall|i: int|
        0 < i < numbers.len() ==> number_order(wide, numbers[i - 1]) <= number_order(
            wide,
            #[trigger] numbers[i],
        )
}

/// Whether the arrays of a curve make up its keys.
pub open spec fn fields_agree(fields: FieldsModel, wide: bool) -> bool {
    match (fields.frames, fields.values) {
        (Some(frames), Some(values)) => {
            let count = frames.len() as int;
            &&& values.len() == count
            &&& length_agrees(fields.tags, count)
            &&& length_agrees(fields.interpolation, count)
            &&& length_agrees(fields.left_slopes, count)
            &&& length_agrees(fields.right_slopes, count)
            &&& length_agrees(fields.revise_constant, count)
            &&& all_finite(wide, frames)
            &&& all_finite(wide, values)
            &&& in_time_order(wide, frames)
        },
        _ => false,
    }
}

fn are_finite(wide: bool, numbers: &Vec<u64>) -> (finite: bool)
    ensures
        finite == all_finite(wide, numbers@),
{
    let mut at: usize = 0;
    while at < numbers.len()
        invariant
            at <= numbers@.len(),
            forall|i: int| 0 <= i < at ==> number_finite(wide, #[trigger] numbers@[i]),
        decreases numbers@.len() - at,
    {
        let finite: bool = if wide {
            Double::from_bits(numbers[at]).is_finite()
        } else {
            Single::from_bits(numbers[at] as u32).is_finite()
        };
        if !finite {
            assert(!number_finite(wide, numbers@[at as int]));
            return false;
        }
        at = at + 1;
    }
    true
}

fn are_in_order(wide: bool, numbers: &Vec<u64>) -> (sorted: bool)
    ensures
        sorted == in_time_order(wide, numbers@),
{
    let mut at: usize = 1;
    while at < numbers.len()
        invariant
            1 <= at,
            at <= numbers@.len() || numbers@.len() == 0,
            forall|i: int|
                0 < i < at && i < numbers@.len() ==> number_order(wide, numbers@[i - 1])
                    <= number_order(wide, #[trigger] numbers@[i]),
        decreases numbers@.len() - at,
    {
        let sorted: bool = if wide {
            Double::from_bits(numbers[at - 1]).at_most(Double::from_bits(numbers[at]))
        } else {
            Single::from_bits(numbers[at - 1] as u32).at_most(
                Single::from_bits(numbers[at] as u32),
            )
        };
        if !sorted {
            assert(number_order(wide, numbers@[at - 1]) > number_order(wide, numbers@[at as int]));
            return false;
        }
        at = at + 1;
    }
    true
}

/// The item at a position of an array, if the array is there.
pub open spec fn item<T>(array: Option<Seq<T>>, i: int) -> Option<T> {
    match array {
        Some(array) => Some(array[i]),
        None => None,
    }
}

/// A single-precision number with these bits.
pub open spec fn single(bits: u64) -> Single {
    Single { bits: bits as u32 }
}

/// A single-precision number with these bits, if they are there.
pub open spec fn optional_single(bits: Option<u64>) -> Option<Single> {
    match bits {
        Some(bits) => Some(single(bits)),
        None => None,
    }
}

/// A double-precision number with these bits, if they are there.
pub open spec fn optional_double(bits: Option<u64>) -> Option<Double> {
    match bits {
        Some(bits) => Some(Double { bits }),
        None => None,
    }
}

/// A key of a primary curve.
pub open spec fn key_of(fields: FieldsModel, i: int) -> KeyframeModel {
    KeyframeModel {
        time_60hz: single(fields.frames->Some_0[i]),
        value: single(fields.values->Some_0[i]),
        tag: item(fields.tags, i),
        interpolation: item(fields.interpolation, i),
        left_slope: optional_single(item(fields.left_slopes, i)),
        right_slope: optional_single(item(fields.right_slopes, i)),
        revise_constant: item(fields.revise_constant, i),
    }
}

/// A key of a secondary curve.
pub open spec fn secondary_key_of(fields: FieldsModel, i: int) -> SecondaryKeyframeModel {
    SecondaryKeyframeModel {
        time_60hz: Double { bits: fields.frames->Some_0[i] },
        value: Double { bits: fields.values->Some_0[i] },
        tag: item(fields.tags, i),
        interpolation: item(fields.interpolation, i),
        left_slope: optional_double(item(fields.left_slopes, i)),
        right_slope: optional_double(item(fields.right_slopes, i)),
        revise_constant: item(fields.revise_constant, i),
    }
}

/// The primary curve that these arrays make up.
pub open spec fn curve_of(header: HeaderModel, fields: FieldsModel) -> Result<CurveModel, Failure> {
    if !fields_agree(fields, false) {
        Err(Failure::InvalidAnimation { reason: curve_complaint(header.kind, fields, false) })
    } else {
        Ok(
            CurveModel {
                kind: header.kind,
                axis: header.axis,
                keyframes: Seq::new(fields.frames->Some_0.len(), |i: int| key_of(fields, i)),
            },
        )
    }
}

/// The secondary curve that these arrays make up.
pub open spec fn secondary_curve_of(header: HeaderModel, fields: FieldsModel) -> Result<
    SecondaryCurveModel,
    Failure,
> {
    if !fields_agree(fields, true) {
        Err(Failure::InvalidAnimation { reason: curve_complaint(header.kind, fields, true) })
    } else {
        Ok(
            SecondaryCurveModel {
                kind: header.kind,
                axis: header.axis,
                keyframes: Seq::new(
                    fields.frames->Some_0.len(),
                    |i: int| secondary_key_of(fields, i),
                ),
            },
        )
    }
}

fn number_of(array: &Option<Vec<u64>>, at: usize) -> (bits: Option<u64>)
    requires
        optional_numbers(*array) matches Some(numbers) ==> at < numbers.len(),
    ensures
        bits == item(optional_numbers(*array), at as int),
{
    match array {
        Some(array) => Some(array[at]),
        None => None,
    }
}

fn name_of(array: &Option<Vec<String>>, at: usize) -> (name: Option<String>)
    requires
        optional_names(*array) matches Some(names) ==> at < names.len(),
    ensures
        error::optional_text(name) == item(optional_names(*array), at as int),
{
    match array {
        Some(array) => Some(array[at].clone()),
        None => None,
    }
}

fn byte_of(array: &Option<Vec<u8>>, at: usize) -> (byte: Option<u8>)
    requires
        error::optional_bytes(*array) matches Some(data) ==> at < data.len(),
    ensures
        byte == item(error::optional_bytes(*array), at as int),
{
    match array {
        Some(array) => Some(array[at]),
        None => None,
    }
}

fn single_of(bits: Option<u64>) -> (number: Option<Single>)
    ensures
        number == optional_single(bits),
{
    match bits {
        Some(bits) => Some(Single { bits: bits as u32 }),
        None => None,
    }
}

fn double_of(bits: Option<u64>) -> (number: Option<Double>)
    ensures
        number == optional_double(bits),
{
    match bits {
        Some(bits) => Some(Double { bits }),
        None => None,
    }
}

fn bits_at(array: &Option<Vec<u64>>, at: usize) -> (bits: u64)
    requires
        optional_numbers(*array) matches Some(numbers) && at < numbers.len(),
    ensures
        bits == optional_numbers(*array)->Some_0[at as int],
{
    match array {
        Some(array) => array[at],
        None => 0,
    }
}

/// What is said of an array that is not as long as the one of frames.
pub open spec fn length_complaint(
    kind: Seq<char>,
    mark: Seq<char>,
    field: Seq<char>,
    actual: int,
    expected: int,
) -> Seq<char> {
    kind + " "@ + mark + field + " length "@ + message::decimal(actual as nat)
        + " differs from Frame length "@ + message::decimal(expected as nat)
}

/// The length of an array, or the expected one where it is not there.
pub open spec fn length_or<T>(array: Option<Seq<T>>, expected: int) -> int {
    match array {
        Some(array) => array.len() as int,
        None => expected,
    }
}

/// What is said of arrays that do not make up the keys of a curve.
pub open spec fn curve_complaint(kind: Seq<char>, fields: FieldsModel, wide: bool) -> Seq<char> {
    let mark = if wide {
        "secondary "@
    } else {
        ""@
    };
    match (fields.frames, fields.values) {
        (None, _) => mark + kind + " has no Frame array"@,
        (Some(_), None) => mark + kind + " has no Value array"@,
        (Some(frames), Some(values)) => {
            let count = frames.len() as int;
            if values.len() != count {
                length_complaint(kind, mark, "Value"@, values.len() as int, count)
            } else if !length_agrees(fields.tags, count) {
                length_complaint(kind, mark, "Tag"@, length_or(fields.tags, count), count)
            } else if !length_agrees(fields.interpolation, count) {
                length_complaint(
                    kind,
                    mark,
                    "Interp"@,
                    length_or(fields.interpolation, count),
                    count,
                )
            } else if !length_agrees(fields.left_slopes, count) {
                length_complaint(
                    kind,
                    mark,
                    "LeftSlope"@,
                    length_or(fields.left_slopes, count),
                    count,
                )
            } else if !length_agrees(fields.right_slopes, count) {
                length_complaint(
                    kind,
                    mark,
                    "RightSlope"@,
                    length_or(fields.right_slopes, count),
                    count,
                )
            } else if !length_agrees(fields.revise_constant, count) {
                length_complaint(
                    kind,
                    mark,
                    "ReviseConstant"@,
                    length_or(fields.revise_constant, count),
                    count,
                )
            } else {
                mark + kind + " curve contains invalid or unsorted numeric values"@
            }
        },
    }
}

fn wrong_length(kind: &str, mark: &str, field: &str, actual: usize, expected: usize) -> (error:
    Error)
    ensures
        error@ == (Failure::InvalidAnimation {
            reason: length_complaint(kind@, mark@, field@, actual as int, expected as int),
        }),
{
    animation_error(
        Message::new(kind).text(" ").text(mark).text(field).text(" length ").number(
            actual as u64,
        ).text(" differs from Frame length ").number(expected as u64),
    )
}

fn numbers_length(array: &Option<Vec<u64>>, expected: usize) -> (length: usize)
    ensures
        length == length_or(optional_numbers(*array), expected as int),
        length == expected <==> length_agrees(optional_numbers(*array), expected as int),
{
    match array {
        Some(array) => array.len(),
        None => expected,
    }
}

fn names_length(array: &Option<Vec<String>>, expected: usize) -> (length: usize)
    ensures
        length == length_or(optional_names(*array), expected as int),
        length == expected <==> length_agrees(optional_names(*array), expected as int),
{
    match array {
        Some(array) => {
            assert(error::views(array@).len() == array@.len());
            array.len()
        },
        None => expected,
    }
}

fn constants_length(array: &Option<Vec<u8>>, expected: usize) -> (length: usize)
    ensures
        length == length_or(error::optional_bytes(*array), expected as int),
        length == expected <==> length_agrees(error::optional_bytes(*array), expected as int),
{
    match array {
        Some(array) => array.len(),
        None => expected,
    }
}

fn agreed_count(fields: &CurveFields, kind: &str, wide: bool) -> (count: Result<usize, Error>)
    ensures
        match count {
            Ok(count) => fields_agree(fields@, wide) && fields@.frames->Some_0.len() == count,
            Err(error) => !fields_agree(fields@, wide) && error@ == (Failure::InvalidAnimation {
                reason: curve_complaint(kind@, fields@, wide),
            }),
        },
{
    let mark: &str = if wide {
        "secondary "
    } else {
        ""
    };
    let frames = match &fields.frames {
        Some(frames) => frames,
        None => {
            return Err(
                animation_error(Message::new(mark).text(kind).text(" has no Frame array")),
            );
        },
    };
    let values = match &fields.values {
        Some(values) => values,
        None => {
            return Err(
                animation_error(Message::new(mark).text(kind).text(" has no Value array")),
            );
        },
    };
    let count: usize = frames.len();
    if values.len() != count {
        return Err(wrong_length(kind, mark, "Value", values.len(), count));
    }
    let length: usize = names_length(&fields.tags, count);
    if length != count {
        return Err(wrong_length(kind, mark, "Tag", length, count));
    }
    let length: usize = names_length(&fields.interpolation, count);
    if length != count {
        return Err(wrong_length(kind, mark, "Interp", length, count));
    }
    let length: usize = numbers_length(&fields.left_slopes, count);
    if length != count {
        return Err(wrong_length(kind, mark, "LeftSlope", length, count));
    }
    let length: usize = numbers_length(&fields.right_slopes, count);
    if length != count {
        return Err(wrong_length(kind, mark, "RightSlope", length, count));
    }
    let length: usize = constants_length(&fields.revise_constant, count);
    if length != count {
        return Err(wrong_length(kind, mark, "ReviseConstant", length, count));
    }
    if !are_finite(wide, frames) || !are_finite(wide, values) || !are_in_order(wide, frames) {
        return Err(
            animation_error(
                Message::new(mark).text(kind).text(
                    " curve contains invalid or unsorted numeric values",
                ),
            ),
        );
    }
    Ok(count)
}

fn build_curve(header: CurveHeader, fields: &CurveFields) -> (curve: Result<AnimationCurve, Error>)
    ensures
        error::outcome(curve) == curve_of(header@, fields@),
{
    let count: usize = agreed_count(fields, header.kind.as_str(), false)?;
    let mut keyframes: Vec<AnimationCurveKeyframe> = Vec::new();
    while keyframes.len() < count
        invariant
            keyframes@.len() <= count,
            fields_agree(fields@, false),
            fields@.frames->Some_0.len() == count,
            forall|i: int|
                0 <= i < keyframes@.len() ==> (#[trigger] keyframes@[i])@ == key_of(fields@, i),
        decreases count - keyframes@.len(),
    {
        let at: usize = keyframes.len();
        let key = AnimationCurveKeyframe {
            time_60hz: Single { bits: bits_at(&fields.frames, at) as u32 },
            value: Single { bits: bits_at(&fields.values, at) as u32 },
            tag: name_of(&fields.tags, at),
            interpolation: name_of(&fields.interpolation, at),
            left_slope: single_of(number_of(&fields.left_slopes, at)),
            right_slope: single_of(number_of(&fields.right_slopes, at)),
            revise_constant: byte_of(&fields.revise_constant, at),
        };
        assert(key@ == key_of(fields@, at as int));
        keyframes.push(key);
    }
    let curve = AnimationCurve { kind: header.kind, axis: header.axis, keyframes };
    assert(curve@.keyframes =~= Seq::new(count as nat, |i: int| key_of(fields@, i)));
    Ok(curve)
}

fn build_secondary_curve(header: CurveHeader, fields: &CurveFields) -> (curve: Result<
    SecondaryAnimationCurve,
    Error,
>)
    ensures
        error::outcome(curve) == secondary_curve_of(header@, fields@),
{
    let count: usize = agreed_count(fields, header.kind.as_str(), true)?;
    let mut keyframes: Vec<SecondaryAnimationCurveKeyframe> = Vec::new();
    while keyframes.len() < count
        invariant
            keyframes@.len() <= count,
            fields_agree(fields@, true),
            fields@.frames->Some_0.len() == count,
            forall|i: int|
                0 <= i < keyframes@.len() ==> (#[trigger] keyframes@[i])@ == secondary_key_of(
                    fields@,
                    i,
                ),
        decreases count - keyframes@.len(),
    {
        let at: usize = keyframes.len();
        let key = SecondaryAnimationCurveKeyframe {
            time_60hz: Double { bits: bits_at(&fields.frames, at) },
            value: Double { bits: bits_at(&fields.values, at) },
            tag: name_of(&fields.tags, at),
            interpolation: name_of(&fields.interpolation, at),
            left_slope: double_of(number_of(&fields.left_slopes, at)),
            right_slope: double_of(number_of(&fields.right_slopes, at)),
            revise_constant: byte_of(&fields.revise_constant, at),
        };
        assert(key@ == secondary_key_of(fields@, at as int));
        keyframes.push(key);
    }
    let curve = SecondaryAnimationCurve { kind: header.kind, axis: header.axis, keyframes };
    assert(curve@.keyframes =~= Seq::new(count as nat, |i: int| secondary_key_of(fields@, i)));
    Ok(curve)
}

/// The most fields that a curve may have.
pub open spec fn field_limit(limit: u64) -> u64 {
    if limit < 1024 {
        limit
    } else {
        1024
    }
}

/// The primary curve whose fields start where its header ends.
pub open spec fn curve_at(data: Seq<u8>, mixer: MixerModel, header: HeaderModel) -> Result<
    CurveModel,
    Failure,
> {
    match word_at(data, header.at) {
        Err(failure) => Err(failure),
        Ok(count) => if count > field_limit(mixer.limit) {
            Err(too_many("animation mixer fields"@, count as int, field_limit(mixer.limit)))
        } else {
            match fields_from(data, mixer, header.kind, count as nat, header.at + 4, no_fields()) {
                Err(failure) => Err(failure),
                Ok(fields) => curve_of(header, fields),
            }
        },
    }
}

/// The primary curves from `start` on, after the curves `found`.
pub open spec fn curves_from(
    data: Seq<u8>,
    mixer: MixerModel,
    fcurve: u32,
    start: int,
    found: Seq<CurveModel>,
) -> Result<Seq<CurveModel>, Failure>
    decreases data.len() - start,
{
    if start + 12 > data.len() {
        Ok(found)
    } else {
        match header_at(data, mixer.strings, fcurve, start) {
            None => curves_from(data, mixer, fcurve, start + 1, found),
            Some(header) => if found.len() + 1 > mixer.limit {
                Err(too_many("animation mixer curves"@, found.len() + 1int, mixer.limit))
            } else {
                match curve_at(data, mixer, header) {
                    Err(failure) => Err(failure),
                    Ok(curve) => curves_from(data, mixer, fcurve, start + 1, found.push(curve)),
                }
            },
        }
    }
}

/// The curves of a primary mixer.
pub open spec fn animation_curves_of(data: Seq<u8>, limits: Limits) -> Result<
    Seq<CurveModel>,
    Failure,
> {
    match string_table_of(data, limits) {
        Err(failure) => Err(failure),
        Ok((strings, start)) => match string_id_of(strings, "FCurve"@) {
            None => Ok(Seq::empty()),
            Some(fcurve) => curves_from(
                data,
                MixerModel { strings, wide: false, int32: 0, limit: limits.max_animation_items },
                fcurve,
                start,
                Seq::empty(),
            ),
        },
    }
}

/// The secondary curve whose fields start where its header ends; `None` where what
/// follows the header is no such curve.
pub open spec fn secondary_curve_at(
    data: Seq<u8>,
    mixer: MixerModel,
    header: HeaderModel,
    count: int,
) -> Result<Option<SecondaryCurveModel>, Failure> {
    match word_at(data, header.at) {
        Err(failure) => Err(failure),
        Ok(fields) => if !field_meta(
            data,
            header.at + 4,
            mixer.strings.len() as int,
            mixer.int32,
        ) {
            Ok(None)
        } else if fields > field_limit(mixer.limit) {
            Err(
                too_many(
                    "secondary animation mixer fields"@,
                    fields as int,
                    field_limit(mixer.limit),
                ),
            )
        } else if count + 1 > mixer.limit {
            Err(too_many("secondary animation mixer curves"@, count + 1, mixer.limit))
        } else {
            match fields_from(data, mixer, header.kind, fields as nat, header.at + 4, no_fields()) {
                Err(failure) => Err(failure),
                Ok(fields) => match secondary_curve_of(header, fields) {
                    Err(failure) => Err(failure),
                    Ok(curve) => Ok(Some(curve)),
                },
            }
        },
    }
}

/// The secondary curves from `start` on, after the curves `found`.
pub open spec fn secondary_curves_from(
    data: Seq<u8>,
    mixer: MixerModel,
    fcurve: u32,
    start: int,
    found: Seq<SecondaryCurveModel>,
) -> Result<Seq<SecondaryCurveModel>, Failure>
    decreases data.len() - start,
{
    if start + 12 > data.len() {
        Ok(found)
    } else {
        match header_at(data, mixer.strings, fcurve, start) {
            None => secondary_curves_from(data, mixer, fcurve, start + 1, found),
            Some(header) => match secondary_curve_at(data, mixer, header, found.len() as int) {
                Err(failure) => Err(failure),
                Ok(None) => secondary_curves_from(data, mixer, fcurve, start + 1, found),
                Ok(Some(curve)) => secondary_curves_from(
                    data,
                    mixer,
                    fcurve,
                    start + 1,
                    found.push(curve),
                ),
            },
        }
    }
}

/// The curves of a secondary mixer.
pub open spec fn secondary_curves_of(data: Seq<u8>, limits: Limits) -> Result<
    Seq<SecondaryCurveModel>,
    Failure,
> {
    match string_table_of(data, limits) {
        Err(failure) => Err(failure),
        Ok((strings, start)) => match (
            string_id_of(strings, "FCurve"@),
            string_id_of(strings, "Int32[]"@),
        ) {
            (Some(fcurve), Some(int32)) => secondary_curves_from(
                data,
                MixerModel { strings, wide: true, int32, limit: limits.max_animation_items },
                fcurve,
                start,
                Seq::empty(),
            ),
            _ => Ok(Seq::empty()),
        },
    }
}

fn field_bound(limit: u64) -> (bound: u64)
    ensures
        bound == field_limit(limit),
{
    if limit < 1024 {
        limit
    } else {
        1024
    }
}

fn read_curve(data: &[u8], mixer: &Mixer, header: CurveHeader) -> (curve: Result<
    AnimationCurve,
    Error,
>)
    requires
        header.at <= data@.len(),
        !mixer.wide,
    ensures
        error::outcome(curve) == curve_at(data@, mixer@, header@),
{
    assert(data.len() == data@.len());
    let count: u32 = read_word(data, header.at)?;
    check_limit(count as u64, field_bound(mixer.limit), "animation mixer fields")?;
    let fields = read_fields(data, mixer, header.kind.as_str(), count, header.at + 4)?;
    build_curve(header, &fields)
}

fn read_secondary_curve(data: &[u8], mixer: &Mixer, header: CurveHeader, count: usize) -> (curve:
    Result<Option<SecondaryAnimationCurve>, Error>)
    requires
        header.at <= data@.len(),
        mixer.wide,
        count < usize::MAX,
    ensures
        error::optional_outcome(curve) == secondary_curve_at(
            data@,
            mixer@,
            header@,
            count as int,
        ),
{
    assert(data.len() == data@.len());
    let field_count: u32 = read_word(data, header.at)?;
    if !has_field_meta(data, header.at + 4, mixer.strings.len(), mixer.int32) {
        return Ok(None);
    }
    check_limit(
        field_count as u64,
        field_bound(mixer.limit),
        "secondary animation mixer fields",
    )?;
    check_limit(count as u64 + 1, mixer.limit, "secondary animation mixer curves")?;
    let fields = read_fields(
        data,
        mixer,
        header.kind.as_str(),
        field_count,
        header.at + 4,
    )?;
    let curve = build_secondary_curve(header, &fields)?;
    Ok(Some(curve))
}

/// Reads the curves of a primary mixer.
pub fn parse_animation_curves(data: &[u8], limits: Limits) -> (curves: Result<
    Vec<AnimationCurve>,
    Error,
>)
    ensures
        error::listed(curves) == animation_curves_of(data@, limits),
{
    assert(data.len() == data@.len());
    let (strings, first) = parse_string_table(data, limits)?;
    let mut curves: Vec<AnimationCurve> = Vec::new();
    assert(error::views(curves@) =~= Seq::<CurveModel>::empty());
    let fcurve: u32 = match string_id(strings.as_slice(), "FCurve") {
        Some(id) => id,
        None => return Ok(curves),
    };
    let mixer = Mixer {
        strings: strings.as_slice(),
        wide: false,
        int32: 0,
        limit: limits.max_animation_items(),
    };
    let ghost whole = curves_from(data@, mixer@, fcurve, first as int, Seq::empty());
    let last: usize = data.len() - 12;
    let mut start: usize = first;
    while start <= last
        invariant
            start <= data@.len(),
            curves@.len() <= start,
            data.len() == data@.len(),
            last + 12 == data@.len(),
            !mixer.wide,
            mixer.limit == limits.max_animation_items,
            mixer@.strings == error::views(strings@),
            whole == animation_curves_of(data@, limits),
            whole == curves_from(data@, mixer@, fcurve, start as int, error::views(curves@)),
        decreases data@.len() - start,
    {
        if let Some(header) = curve_header(data, mixer.strings, fcurve, start) {
            check_limit(curves.len() as u64 + 1, mixer.limit, "animation mixer curves")?;
            let curve = read_curve(data, &mixer, header)?;
            proof {
                error::views_push(curves@, curve);
            }
            curves.push(curve);
        }
        start = start + 1;
    }
    Ok(curves)
}

/// Reads the curves of a secondary mixer.
pub fn parse_secondary_animation_curves(data: &[u8], limits: Limits) -> (curves: Result<
    Vec<SecondaryAnimationCurve>,
    Error,
>)
    ensures
        error::listed(curves) == secondary_curves_of(data@, limits),
{
    assert(data.len() == data@.len());
    let (strings, first) = parse_string_table(data, limits)?;
    let mut curves: Vec<SecondaryAnimationCurve> = Vec::new();
    assert(error::views(curves@) =~= Seq::<SecondaryCurveModel>::empty());
    let fcurve: u32 = match string_id(strings.as_slice(), "FCurve") {
        Some(id) => id,
        None => return Ok(curves),
    };
    let int32: u32 = match string_id(strings.as_slice(), "Int32[]") {
        Some(id) => id,
        None => return Ok(curves),
    };
    let mixer = Mixer {
        strings: strings.as_slice(),
        wide: true,
        int32,
        limit: limits.max_animation_items(),
    };
    let ghost whole = secondary_curves_from(data@, mixer@, fcurve, first as int, Seq::empty());
    let last: usize = data.len() - 12;
    let mut start: usize = first;
    while start <= last
        invariant
            start <= data@.len(),
            curves@.len() <= start,
            data.len() == data@.len(),
            last + 12 == data@.len(),
            mixer.wide,
            whole == secondary_curves_of(data@, limits),
            whole == secondary_curves_from(
                data@,
                mixer@,
                fcurve,
                start as int,
                error::views(curves@),
            ),
            mixer@.strings == error::views(strings@),
        decreases data@.len() - start,
    {
        if let Some(header) = curve_header(data, mixer.strings, fcurve, start) {
            if let Some(curve) = read_secondary_curve(data, &mixer, header, curves.len())? {
                proof {
                    error::views_push(curves@, curve);
                }
                curves.push(curve);
            }
        }
        start = start + 1;
    }
    Ok(curves)
}

/// The keys of a curve are finite and in the order of their times.
pub proof fn curve_keys_are_in_time_order(header: HeaderModel, fields: FieldsModel)
    requires
        curve_of(header, fields) is Ok,
    ensures
        ({
            let keys = curve_of(header, fields)->Ok_0.keyframes;
            &&& forall|i: int|
                0 <= i < keys.len() ==> (#[trigger] keys[i]).time_60hz.finite()
                    && keys[i].value.finite()
            &&& forall|i: int, j: int|
                0 <= i < j < keys.len() ==> (#[trigger] keys[i]).time_60hz.order() <= (
                #[trigger] keys[j]).time_60hz.order()
        }),
{
    let keys = curve_of(header, fields)->Ok_0.keyframes;
    let frames = fields.frames->Some_0;
    let values = fields.values->Some_0;
    assert forall|i: int| 0 <= i < keys.len() implies (#[trigger] keys[i]).time_60hz.finite()
        && keys[i].value.finite() by {
        assert(number_finite(false, frames[i]));
        assert(number_finite(false, values[i]));
    }
    assert forall|i: int, j: int| 0 <= i < j < keys.len() implies (#[trigger] keys[i]).time_60hz.order()
        <= (#[trigger] keys[j]).time_60hz.order() by {
        times_ordered(false, frames, i, j);
    }
}

/// The keys of a secondary curve are finite and in the order of their times.
pub proof fn secondary_keys_are_in_time_order(header: HeaderModel, fields: FieldsModel)
    requires
        secondary_curve_of(header, fields) is Ok,
    ensures
        ({
            let keys = secondary_curve_of(header, fields)->Ok_0.keyframes;
            &&& forall|i: int|
                0 <= i < keys.len() ==> (#[trigger] keys[i]).time_60hz.finite()
                    && keys[i].value.finite()
            &&& forall|i: int, j: int|
                0 <= i < j < keys.len() ==> (#[trigger] keys[i]).time_60hz.order() <= (
                #[trigger] keys[j]).time_60hz.order()
        }),
{
    let keys = secondary_curve_of(header, fields)->Ok_0.keyframes;
    let frames = fields.frames->Some_0;
    let values = fields.values->Some_0;
    assert forall|i: int| 0 <= i < keys.len() implies (#[trigger] keys[i]).time_60hz.finite()
        && keys[i].value.finite() by {
        assert(number_finite(true, frames[i]));
        assert(number_finite(true, values[i]));
    }
    assert forall|i: int, j: int| 0 <= i < j < keys.len() implies (#[trigger] keys[i]).time_60hz.order()
        <= (#[trigger] keys[j]).time_60hz.order() by {
        times_ordered(true, frames, i, j);
    }
}

proof fn times_ordered(wide: bool, numbers: Seq<u64>, i: int, j: int)
    requires
        0 <= i < j < numbers.len(),
        in_time_order(wide, numbers),
    ensures
        number_order(wide, numbers[i]) <= number_order(wide, numbers[j]),
    decreases j - i,
{
    assert(number_order(wide, numbers[j - 1]) <= number_order(wide, numbers[j]));
    if i < j - 1 {
        times_ordered(wide, numbers, i, j - 1);
    }
}

} // verus!
