//! Corrections as bytes, and what parsing gives back of them.

use vstd::prelude::*;

use crate::bytes;
use crate::correction;
use crate::correction::{
    ColorBalanceAdjustment, CorrectionCurvePoint, CorrectionGradientPoint, CorrectionLevel,
    CorrectionModel, GradientStopModel,
};
use crate::error::Failure;
use crate::layout;
use crate::layout::{holds, laid_out, signed16, signed32, word16, word32, word64};
use crate::limits::Limits;

verus! {

/// The record of a level correction: the left, middle and right input, then the left and right
/// output.
pub open spec fn level_bytes(level: CorrectionLevel) -> Seq<u8> {
    laid_out(
        seq![
            word16(level.input_left),
            word16(level.input_mid),
            word16(level.input_right),
            word16(level.output_left),
            word16(level.output_right),
        ],
    )
}

/// The records of level corrections.
pub open spec fn levels_bytes(levels: Seq<CorrectionLevel>) -> Seq<u8> {
    laid_out(Seq::new(levels.len(), |i: int| level_bytes(levels[i])))
}

/// A point of a tone curve: its input, then its output.
pub open spec fn tone_point_bytes(point: CorrectionCurvePoint) -> Seq<u8> {
    laid_out(seq![word16(point.input), word16(point.output)])
}

/// Points of a tone curve, one after the other.
pub open spec fn tone_points_bytes(points: Seq<CorrectionCurvePoint>) -> Seq<u8> {
    laid_out(Seq::new(points.len(), |i: int| tone_point_bytes(points[i])))
}

/// A tone curve: the number of its points, the points, and zeros for the points up to 32 that it
/// does not have.
pub open spec fn tone_curve_bytes(points: Seq<CorrectionCurvePoint>) -> Seq<u8> {
    signed16(points.len() as i16) + tone_points_bytes(points) + Seq::new(
        (128 - 4 * points.len()) as nat,
        |i: int| 0u8,
    )
}

/// Tone curves, one after the other.
pub open spec fn tone_curves_bytes(curves: Seq<Seq<CorrectionCurvePoint>>) -> Seq<u8> {
    laid_out(Seq::new(curves.len(), |i: int| tone_curve_bytes(curves[i])))
}

/// The offsets of a color balance in one range: cyan, magenta, yellow.
pub open spec fn balance_values(balance: ColorBalanceAdjustment) -> Seq<i32> {
    seq![balance.cyan, balance.magenta, balance.yellow]
}

proof fn level_reads_back(body: Seq<u8>, at: int, level: CorrectionLevel)
    requires
        holds(body, at, level_bytes(level)),
    ensures
        correction::level_at(body, at) == level,
{
    reveal(correction::level_at);
    let parts = seq![
        word16(level.input_left),
        word16(level.input_mid),
        word16(level.input_right),
        word16(level.output_left),
        word16(level.output_right),
    ];
    layout::equal_parts(parts, 2);
    assert forall|i: int| 0 <= i < 5 implies holds(body, at + 2 * i, #[trigger] parts[i]) by {
        layout::part_of_part(body, at, level_bytes(level), 2 * i, parts[i]);
    }
    assert(holds(body, at + 2 * 0, parts[0]));
    assert(holds(body, at + 2 * 1, parts[1]));
    assert(holds(body, at + 2 * 2, parts[2]));
    assert(holds(body, at + 2 * 3, parts[3]));
    assert(holds(body, at + 2 * 4, parts[4]));
    layout::held_numbers_read_back(body, at);
    layout::held_numbers_read_back(body, at + 2);
    layout::held_numbers_read_back(body, at + 4);
    layout::held_numbers_read_back(body, at + 6);
    layout::held_numbers_read_back(body, at + 8);
}

proof fn level_size(level: CorrectionLevel)
    ensures
        level_bytes(level).len() == 10,
{
    layout::equal_parts(
        seq![
            word16(level.input_left),
            word16(level.input_mid),
            word16(level.input_right),
            word16(level.output_left),
            word16(level.output_right),
        ],
        2,
    );
}

/// Level records that are written, four or more and no more than allowed, read back as the first
/// four of them.
pub proof fn levels_read_back(levels: Seq<CorrectionLevel>, limits: Limits)
    requires
        4 <= levels.len() <= limits.max_correction_items,
    ensures
        correction::levels_of(levels_bytes(levels), limits) == Ok::<CorrectionModel, Failure>(
            CorrectionModel::Levels { levels: levels.take(4) },
        ),
{
    let parts = Seq::new(levels.len(), |i: int| level_bytes(levels[i]));
    let body = levels_bytes(levels);
    assert forall|i: int| 0 <= i < parts.len() implies (#[trigger] parts[i]).len() == 10 by {
        level_size(levels[i]);
    }
    layout::equal_parts(parts, 10);
    assert forall|i: int| 0 <= i < 4 implies correction::level_at(body, 10 * i)
        == #[trigger] levels[i] by {
        assert(holds(body, 10 * i, parts[i]));
        level_reads_back(body, 10 * i, levels[i]);
    }
    assert(Seq::new(4, |i: int| correction::level_at(body, 10 * i)) =~= levels.take(4));
}

proof fn tone_point_reads_back(body: Seq<u8>, at: int, point: CorrectionCurvePoint)
    requires
        holds(body, at, tone_point_bytes(point)),
    ensures
        correction::tone_point_at(body, at) == point,
{
    let parts = seq![word16(point.input), word16(point.output)];
    layout::equal_parts(parts, 2);
    assert(holds(tone_point_bytes(point), 2 * 0int, parts[0]));
    assert(holds(tone_point_bytes(point), 2 * 1int, parts[1]));
    layout::part_of_part(body, at, tone_point_bytes(point), 0, parts[0]);
    layout::part_of_part(body, at, tone_point_bytes(point), 2, parts[1]);
    layout::held_numbers_read_back(body, at);
    layout::held_numbers_read_back(body, at + 2);
}

proof fn tone_points_stand(points: Seq<CorrectionCurvePoint>)
    ensures
        tone_points_bytes(points).len() == 4 * points.len(),
        forall|i: int|
            0 <= i < points.len() ==> holds(
                tone_points_bytes(points),
                4 * i,
                tone_point_bytes(#[trigger] points[i]),
            ),
{
    let parts = Seq::new(points.len(), |i: int| tone_point_bytes(points[i]));
    assert forall|i: int| 0 <= i < parts.len() implies (#[trigger] parts[i]).len() == 4 by {
        layout::equal_parts(seq![word16(points[i].input), word16(points[i].output)], 2);
    }
    layout::equal_parts(parts, 4);
    assert forall|i: int| 0 <= i < points.len() implies holds(
        tone_points_bytes(points),
        4 * i,
        tone_point_bytes(#[trigger] points[i]),
    ) by {
        assert(holds(laid_out(parts), 4 * i, parts[i]));
    }
}

proof fn tone_curve_reads_back(
    body: Seq<u8>,
    at: int,
    points: Seq<CorrectionCurvePoint>,
    limits: Limits,
)
    requires
        points.len() <= 32,
        points.len() <= limits.max_correction_items,
        holds(body, at, tone_curve_bytes(points)),
    ensures
        correction::tone_curve_at(body, at, limits) == Ok::<Seq<CorrectionCurvePoint>, Failure>(
            points,
        ),
{
    reveal(correction::tone_curve_at);
    let head = signed16(points.len() as i16);
    let middle = tone_points_bytes(points);
    let rest = Seq::new((128 - 4 * points.len()) as nat, |i: int| 0u8);
    layout::three_parts(head, middle, rest);
    tone_points_stand(points);
    layout::part_of_part(body, at, tone_curve_bytes(points), 0, head);
    layout::part_of_part(body, at, tone_curve_bytes(points), 2, middle);
    layout::held_numbers_read_back(body, at);
    let read = Seq::new(
        points.len(),
        |i: int| correction::tone_point_at(body, at + 2 + 4 * i),
    );
    assert forall|i: int| 0 <= i < points.len() implies read[i] == #[trigger] points[i] by {
        layout::part_of_part(body, at + 2, middle, 4 * i, tone_point_bytes(points[i]));
        tone_point_reads_back(body, at + 2 + 4 * i, points[i]);
    }
    assert(read =~= points);
}

proof fn tone_curves_stand(curves: Seq<Seq<CorrectionCurvePoint>>)
    requires
        forall|i: int| 0 <= i < curves.len() ==> (#[trigger] curves[i]).len() <= 32,
    ensures
        tone_curves_bytes(curves).len() == 130 * curves.len(),
        forall|i: int|
            0 <= i < curves.len() ==> holds(
                tone_curves_bytes(curves),
                130 * i,
                tone_curve_bytes(#[trigger] curves[i]),
            ),
{
    let parts = Seq::new(curves.len(), |i: int| tone_curve_bytes(curves[i]));
    assert forall|i: int| 0 <= i < parts.len() implies (#[trigger] parts[i]).len() == 130 by {
        assert(curves[i].len() <= 32);
        tone_points_stand(curves[i]);
    }
    layout::equal_parts(parts, 130);
    assert forall|i: int| 0 <= i < curves.len() implies holds(
        tone_curves_bytes(curves),
        130 * i,
        tone_curve_bytes(#[trigger] curves[i]),
    ) by {
        assert(holds(laid_out(parts), 130 * i, parts[i]));
    }
}

proof fn tone_curves_in_turn(
    curves: Seq<Seq<CorrectionCurvePoint>>,
    limits: Limits,
    at: int,
)
    requires
        forall|i: int|
            0 <= i < curves.len() ==> (#[trigger] curves[i]).len() <= 32 && curves[i].len()
                <= limits.max_correction_items,
        0 <= at <= curves.len(),
    ensures
        correction::tone_curves_from(
            tone_curves_bytes(curves),
            limits,
            curves.len() as int,
            at,
            curves.take(at),
        ) == Ok::<Seq<Seq<CorrectionCurvePoint>>, Failure>(curves),
    decreases curves.len() - at,
{
    let body = tone_curves_bytes(curves);
    if at < curves.len() {
        tone_curves_stand(curves);
        assert(holds(body, 130 * at, tone_curve_bytes(curves[at])));
        tone_curve_reads_back(body, 130 * at, curves[at], limits);
        assert(curves.take(at).push(curves[at]) =~= curves.take(at + 1));
        tone_curves_in_turn(curves, limits, at + 1);
    } else {
        assert(curves.take(at) =~= curves);
    }
}

/// Tone curves that are written, four or more and no more than allowed, of up to 32 points each,
/// read back as the first four of them, point by point.
pub proof fn tone_curves_read_back(curves: Seq<Seq<CorrectionCurvePoint>>, limits: Limits)
    requires
        4 <= curves.len() <= limits.max_correction_items,
        forall|i: int|
            0 <= i < curves.len() ==> (#[trigger] curves[i]).len() <= 32 && curves[i].len()
                <= limits.max_correction_items,
    ensures
        correction::tone_curves_of(tone_curves_bytes(curves), limits) == Ok::<
            CorrectionModel,
            Failure,
        >(CorrectionModel::ToneCurve { curves: curves.take(4) }),
{
    tone_curves_stand(curves);
    assert(curves.take(0) =~= Seq::<Seq<CorrectionCurvePoint>>::empty());
    tone_curves_in_turn(curves, limits, 0);
}

/// The record of a gradient stop: its color, its opacity, its current color, its position, and
/// the number of its curve points.
pub open spec fn stop_bytes(stop: GradientStopModel) -> Seq<u8> {
    laid_out(
        seq![
            word32(stop.red),
            word32(stop.green),
            word32(stop.blue),
            word32(stop.opacity),
            signed32(stop.current_color),
            signed32(stop.position),
            signed32(stop.curve_points.len() as i32),
        ],
    )
}

/// A point of the curve of a gradient stop: its input, then its output.
pub open spec fn gradient_point_bytes(point: CorrectionGradientPoint) -> Seq<u8> {
    laid_out(seq![word64(point.input.bits), word64(point.output.bits)])
}

/// The curve points of the first `count` stops.
pub open spec fn all_points(stops: Seq<GradientStopModel>, count: int) -> Seq<
    CorrectionGradientPoint,
>
    decreases count,
{
    if count <= 0 {
        Seq::empty()
    } else {
        all_points(stops, count - 1) + stops[count - 1].curve_points
    }
}

/// Curve points, one after the other.
pub open spec fn gradient_points_bytes(points: Seq<CorrectionGradientPoint>) -> Seq<u8> {
    laid_out(Seq::new(points.len(), |i: int| gradient_point_bytes(points[i])))
}

/// The records of gradient stops.
pub open spec fn stops_bytes(stops: Seq<GradientStopModel>) -> Seq<u8> {
    laid_out(Seq::new(stops.len(), |i: int| stop_bytes(stops[i])))
}

/// A gradient map: the bytes that follow, the size of its header, of a stop and of a curve
/// point with the number of stops between, the stops, and the curve points of all of them.
pub open spec fn gradient_bytes(stops: Seq<GradientStopModel>) -> Seq<u8> {
    let points = all_points(stops, stops.len() as int);
    laid_out(
        seq![
            signed32((16 + 28 * stops.len() + 16 * points.len()) as i32),
            signed32(16),
            signed32(28),
            signed32(stops.len() as i32),
            signed32(16),
        ],
    ) + stops_bytes(stops) + gradient_points_bytes(points)
}

/// Whether a gradient map can be written: its sizes fit, there are no more stops and points than
/// allowed, and every point is finite.
pub open spec fn gradient_writable(stops: Seq<GradientStopModel>, limits: Limits) -> bool {
    let points = all_points(stops, stops.len() as int);
    &&& 16 + 28 * stops.len() + 16 * points.len() <= i32::MAX
    &&& stops.len() <= limits.max_correction_items
    &&& points.len() <= limits.max_correction_items
    &&& forall|i: int|
        0 <= i < points.len() ==> (#[trigger] points[i]).input.finite()
            && points[i].output.finite()
}

proof fn points_so_far(stops: Seq<GradientStopModel>, count: int, stop: int)
    requires
        0 <= stop < count <= stops.len(),
    ensures
        all_points(stops, stop).len() + stops[stop].curve_points.len() <= all_points(
            stops,
            count,
        ).len(),
        forall|i: int|
            0 <= i < stops[stop].curve_points.len() ==> #[trigger] stops[stop].curve_points[i]
                == all_points(stops, count)[all_points(stops, stop).len() + i],
    decreases count,
{
    if stop < count - 1 {
        points_so_far(stops, count - 1, stop);
        let before = all_points(stops, count - 1);
        assert forall|i: int| 0 <= i < stops[stop].curve_points.len() implies #[trigger]
            stops[stop].curve_points[i] == all_points(stops, count)[all_points(stops, stop).len()
            + i] by {
            assert(stops[stop].curve_points[i] == before[all_points(stops, stop).len() + i]);
        }
    }
}

proof fn stops_stand(stops: Seq<GradientStopModel>)
    ensures
        stops_bytes(stops).len() == 28 * stops.len(),
        forall|i: int|
            0 <= i < stops.len() ==> holds(
                stops_bytes(stops),
                28 * i,
                stop_bytes(#[trigger] stops[i]),
            ),
{
    let parts = Seq::new(stops.len(), |i: int| stop_bytes(stops[i]));
    assert forall|i: int| 0 <= i < parts.len() implies (#[trigger] parts[i]).len() == 28 by {
        stop_words(stops[i]);
    }
    layout::equal_parts(parts, 28);
    assert forall|i: int| 0 <= i < stops.len() implies holds(
        stops_bytes(stops),
        28 * i,
        stop_bytes(#[trigger] stops[i]),
    ) by {
        assert(holds(laid_out(parts), 28 * i, parts[i]));
    }
}

proof fn stop_words(stop: GradientStopModel)
    ensures
        stop_bytes(stop).len() == 28,
        holds(stop_bytes(stop), 0, word32(stop.red)),
        holds(stop_bytes(stop), 4, word32(stop.green)),
        holds(stop_bytes(stop), 8, word32(stop.blue)),
        holds(stop_bytes(stop), 12, word32(stop.opacity)),
        holds(stop_bytes(stop), 16, signed32(stop.current_color)),
        holds(stop_bytes(stop), 20, signed32(stop.position)),
        holds(stop_bytes(stop), 24, signed32(stop.curve_points.len() as i32)),
{
    let parts = seq![
        word32(stop.red),
        word32(stop.green),
        word32(stop.blue),
        word32(stop.opacity),
        signed32(stop.current_color),
        signed32(stop.position),
        signed32(stop.curve_points.len() as i32),
    ];
    layout::equal_parts(parts, 4);
    assert(holds(laid_out(parts), 4 * 0int, parts[0]));
    assert(holds(laid_out(parts), 4 * 1int, parts[1]));
    assert(holds(laid_out(parts), 4 * 2int, parts[2]));
    assert(holds(laid_out(parts), 4 * 3int, parts[3]));
    assert(holds(laid_out(parts), 4 * 4int, parts[4]));
    assert(holds(laid_out(parts), 4 * 5int, parts[5]));
    assert(holds(laid_out(parts), 4 * 6int, parts[6]));
}

proof fn gradient_points_stand(points: Seq<CorrectionGradientPoint>)
    ensures
        gradient_points_bytes(points).len() == 16 * points.len(),
        forall|i: int|
            0 <= i < points.len() ==> holds(
                gradient_points_bytes(points),
                16 * i,
                gradient_point_bytes(#[trigger] points[i]),
            ),
{
    let parts = Seq::new(points.len(), |i: int| gradient_point_bytes(points[i]));
    assert forall|i: int| 0 <= i < parts.len() implies (#[trigger] parts[i]).len() == 16 by {
        layout::equal_parts(seq![word64(points[i].input.bits), word64(points[i].output.bits)], 8);
    }
    layout::equal_parts(parts, 16);
    assert forall|i: int| 0 <= i < points.len() implies holds(
        gradient_points_bytes(points),
        16 * i,
        gradient_point_bytes(#[trigger] points[i]),
    ) by {
        assert(holds(laid_out(parts), 16 * i, parts[i]));
    }
}

proof fn gradient_point_reads_back(body: Seq<u8>, at: int, point: CorrectionGradientPoint)
    requires
        holds(body, at, gradient_point_bytes(point)),
    ensures
        correction::gradient_point_at(body, at) == point,
{
    reveal(correction::gradient_point_at);
    let parts = seq![word64(point.input.bits), word64(point.output.bits)];
    layout::equal_parts(parts, 8);
    assert(holds(laid_out(parts), 8 * 0int, parts[0]));
    assert(holds(laid_out(parts), 8 * 1int, parts[1]));
    layout::part_of_part(body, at, gradient_point_bytes(point), 0, parts[0]);
    layout::part_of_part(body, at, gradient_point_bytes(point), 8, parts[1]);
    layout::held_numbers_read_back(body, at);
    layout::held_numbers_read_back(body, at + 8);
}

proof fn gradient_stands(stops: Seq<GradientStopModel>, limits: Limits)
    requires
        gradient_writable(stops, limits),
    ensures
        ({
            let body = gradient_bytes(stops);
            let points = all_points(stops, stops.len() as int);
            &&& body.len() == 20 + 28 * stops.len() + 16 * points.len()
            &&& bytes::be32_signed(body, 0) == body.len() - 4
            &&& bytes::be32_signed(body, 4) == 16
            &&& bytes::be32_signed(body, 8) == 28
            &&& bytes::be32_signed(body, 12) == stops.len()
            &&& bytes::be32_signed(body, 16) == 16
            &&& holds(body, 20, stops_bytes(stops))
            &&& holds(body, 20 + 28 * stops.len() as int, gradient_points_bytes(points))
        }),
{
    let body = gradient_bytes(stops);
    let points = all_points(stops, stops.len() as int);
    let words = seq![
        signed32((16 + 28 * stops.len() + 16 * points.len()) as i32),
        signed32(16),
        signed32(28),
        signed32(stops.len() as i32),
        signed32(16),
    ];
    let head = laid_out(words);
    layout::equal_parts(words, 4);
    stops_stand(stops);
    gradient_points_stand(points);
    layout::three_parts(head, stops_bytes(stops), gradient_points_bytes(points));
    assert forall|i: int| 0 <= i < 5 implies holds(body, 4 * i, #[trigger] words[i]) by {
        assert(holds(head, 4 * i, words[i]));
        layout::part_of_part(body, 0, head, 4 * i, words[i]);
    }
    assert(holds(body, 4 * 0int, words[0]));
    assert(holds(body, 4 * 1int, words[1]));
    assert(holds(body, 4 * 2int, words[2]));
    assert(holds(body, 4 * 3int, words[3]));
    assert(holds(body, 4 * 4int, words[4]));
    layout::held_numbers_read_back(body, 0);
    layout::held_numbers_read_back(body, 4);
    layout::held_numbers_read_back(body, 8);
    layout::held_numbers_read_back(body, 12);
    layout::held_numbers_read_back(body, 16);
}

proof fn stop_reads_back(stops: Seq<GradientStopModel>, limits: Limits, stop: int)
    requires
        gradient_writable(stops, limits),
        0 <= stop < stops.len(),
    ensures
        ({
            let body = gradient_bytes(stops);
            let at = 20 + 28 * stop;
            &&& correction::stop_points(body, stop) == stops[stop].curve_points.len()
            &&& bytes::be32(body, at) == stops[stop].red
            &&& bytes::be32(body, at + 4) == stops[stop].green
            &&& bytes::be32(body, at + 8) == stops[stop].blue
            &&& bytes::be32(body, at + 12) == stops[stop].opacity
            &&& bytes::be32_signed(body, at + 16) == stops[stop].current_color
            &&& bytes::be32_signed(body, at + 20) == stops[stop].position
        }),
{
    reveal(correction::stop_points);
    let body = gradient_bytes(stops);
    let at = 20 + 28 * stop;
    let item = stops[stop];
    let part = stop_bytes(item);
    gradient_stands(stops, limits);
    stops_stand(stops);
    stop_words(item);
    points_so_far(stops, stops.len() as int, stop);
    layout::part_of_part(body, 20, stops_bytes(stops), 28 * stop, part);
    layout::part_of_part(body, at, part, 0, word32(item.red));
    layout::part_of_part(body, at, part, 4, word32(item.green));
    layout::part_of_part(body, at, part, 8, word32(item.blue));
    layout::part_of_part(body, at, part, 12, word32(item.opacity));
    layout::part_of_part(body, at, part, 16, signed32(item.current_color));
    layout::part_of_part(body, at, part, 20, signed32(item.position));
    layout::part_of_part(body, at, part, 24, signed32(item.curve_points.len() as i32));
    layout::held_numbers_read_back(body, at);
    layout::held_numbers_read_back(body, at + 4);
    layout::held_numbers_read_back(body, at + 8);
    layout::held_numbers_read_back(body, at + 12);
    layout::held_numbers_read_back(body, at + 16);
    layout::held_numbers_read_back(body, at + 20);
    layout::held_numbers_read_back(body, at + 24);
}

proof fn points_before_stop(stops: Seq<GradientStopModel>, limits: Limits, stop: int)
    requires
        gradient_writable(stops, limits),
        0 <= stop <= stops.len(),
    ensures
        correction::points_before(gradient_bytes(stops), stop) == all_points(stops, stop).len(),
    decreases stop,
{
    if stop > 0 {
        points_before_stop(stops, limits, stop - 1);
        stop_reads_back(stops, limits, stop - 1);
    }
}

proof fn point_counts_are_allowed(stops: Seq<GradientStopModel>, limits: Limits, stop: int)
    requires
        gradient_writable(stops, limits),
        0 <= stop <= stops.len(),
    ensures
        correction::point_counts_from(gradient_bytes(stops), limits, stops.len() as int, stop)
            == Ok::<(), Failure>(()),
    decreases stops.len() - stop,
{
    if stop < stops.len() {
        stop_reads_back(stops, limits, stop);
        points_before_stop(stops, limits, stop + 1);
        points_so_far(stops, stops.len() as int, stop);
        point_counts_are_allowed(stops, limits, stop + 1);
    }
}

/// A gradient map that is written reads back as its stops, with the curve points of each.
pub proof fn gradient_map_reads_back(stops: Seq<GradientStopModel>, limits: Limits)
    requires
        gradient_writable(stops, limits),
    ensures
        correction::gradient_map_of(gradient_bytes(stops), limits) == Ok::<
            CorrectionModel,
            Failure,
        >(CorrectionModel::GradientMap { stops }),
{
    let body = gradient_bytes(stops);
    let count = stops.len() as int;
    let points = all_points(stops, count);
    gradient_stands(stops, limits);
    point_counts_are_allowed(stops, limits, 0);
    points_before_stop(stops, limits, count);
    gradient_points_stand(points);
    assert forall|i: int| 0 <= i < points.len() implies #[trigger] correction::gradient_point_at(
        body,
        20 + 28 * count + 16 * i,
    ) == points[i] by {
        layout::part_of_part(
            body,
            20 + 28 * count,
            gradient_points_bytes(points),
            16 * i,
            gradient_point_bytes(points[i]),
        );
        gradient_point_reads_back(body, 20 + 28 * count + 16 * i, points[i]);
    }
    let read = Seq::new(
        count as nat,
        |i: int| correction::gradient_stop_at(body, count, i),
    );
    assert forall|stop: int| 0 <= stop < count implies #[trigger] read[stop] == stops[stop] by {
        stop_reads_back(stops, limits, stop);
        points_before_stop(stops, limits, stop);
        points_so_far(stops, count, stop);
        let first = all_points(stops, stop).len();
        assert forall|i: int| 0 <= i < stops[stop].curve_points.len() implies
            read[stop].curve_points[i] == #[trigger] stops[stop].curve_points[i] by {
            assert(20 + 28 * count + 16 * first + 16 * i == 20 + 28 * count + 16 * (first + i));
            assert(correction::gradient_point_at(body, 20 + 28 * count + 16 * (first + i))
                == points[first + i]);
        }
        assert(read[stop].curve_points =~= stops[stop].curve_points);
    }
    assert(read =~= stops);
}

/// The parameters of a correction with parameters of a fixed size, and the number of its kind.
/// The ranges of a color balance come from dark to light.
pub open spec fn fixed_values(correction: CorrectionModel) -> Option<(i32, Seq<i32>)> {
    match correction {
        CorrectionModel::BrightnessContrast { brightness, contrast } => Some(
            (1i32, seq![brightness, contrast]),
        ),
        CorrectionModel::HueSaturationLuminosity { hue, saturation, luminosity } => Some(
            (4i32, seq![hue, saturation, luminosity]),
        ),
        CorrectionModel::ColorBalance { keep_luminosity, shadows, midtones, highlights } => Some(
            (
                5i32,
                seq![keep_luminosity] + balance_values(shadows) + balance_values(midtones)
                    + balance_values(highlights),
            ),
        ),
        CorrectionModel::ReverseGradient => Some((6i32, Seq::empty())),
        CorrectionModel::Posterization { count } => Some((7i32, seq![count])),
        CorrectionModel::Threshold { level } => Some((8i32, seq![level])),
        _ => None,
    }
}

/// Numbers, one after the other.
pub open spec fn values_bytes(values: Seq<i32>) -> Seq<u8> {
    laid_out(Seq::new(values.len(), |i: int| signed32(values[i])))
}

proof fn values_read_back(values: Seq<i32>)
    ensures
        values_bytes(values).len() == 4 * values.len(),
        forall|i: int|
            0 <= i < values.len() ==> bytes::be32_signed(values_bytes(values), 4 * i)
                == #[trigger] values[i],
{
    let parts = Seq::new(values.len(), |i: int| signed32(values[i]));
    layout::equal_parts(parts, 4);
    assert forall|i: int| 0 <= i < values.len() implies bytes::be32_signed(
        values_bytes(values),
        4 * i,
    ) == #[trigger] values[i] by {
        assert(holds(laid_out(parts), 4 * i, parts[i]));
        layout::held_numbers_read_back(values_bytes(values), 4 * i);
    }
}

/// The parameters of a correction, and the number of its kind.
pub open spec fn kind_and_body(correction: CorrectionModel) -> (i32, Seq<u8>) {
    match correction {
        CorrectionModel::Levels { levels } => (2i32, levels_bytes(levels)),
        CorrectionModel::ToneCurve { curves } => (3i32, tone_curves_bytes(curves)),
        CorrectionModel::GradientMap { stops } => (9i32, gradient_bytes(stops)),
        CorrectionModel::Unknown { kind, payload } => (kind, payload),
        _ => {
            let (kind, values) = fixed_values(correction)->Some_0;
            (kind, values_bytes(values))
        },
    }
}

/// A correction: the number of its kind, the bytes that its parameters take, and these.
pub open spec fn correction_bytes(correction: CorrectionModel) -> Seq<u8> {
    let (kind, body) = kind_and_body(correction);
    signed32(kind) + signed32(body.len() as i32) + body
}

/// Whether a correction can be written: it has four channels where it has channels, and no more
/// of anything than allowed; an unknown one has a number that no known one has.
pub open spec fn correction_writable(correction: CorrectionModel, limits: Limits) -> bool {
    let size = kind_and_body(correction).1.len();
    &&& size <= i32::MAX
    &&& size + 8 <= limits.max_correction_bytes
    &&& match correction {
        CorrectionModel::Levels { levels } => levels.len() == 4 && 4 <= limits.max_correction_items,
        CorrectionModel::ToneCurve { curves } => curves.len() == 4 && 4
            <= limits.max_correction_items && forall|i: int|
            0 <= i < 4 ==> (#[trigger] curves[i]).len() <= 32 && curves[i].len()
                <= limits.max_correction_items,
        CorrectionModel::GradientMap { stops } => gradient_writable(stops, limits),
        CorrectionModel::Unknown { kind, .. } => !(1 <= kind <= 9),
        _ => true,
    }
}

proof fn fixed_reads_back(correction: CorrectionModel, limits: Limits)
    requires
        fixed_values(correction) is Some,
    ensures
        ({
            let (kind, body) = kind_and_body(correction);
            correction::correction_body_of(kind, body, limits) == Ok::<CorrectionModel, Failure>(
                correction,
            )
        }),
{
    let (_, values) = fixed_values(correction)->Some_0;
    let body = values_bytes(values);
    values_read_back(values);
    if values.len() > 0 {
        assert(bytes::be32_signed(body, 4 * 0int) == values[0]);
    }
    if values.len() > 1 {
        assert(bytes::be32_signed(body, 4 * 1int) == values[1]);
    }
    if values.len() > 2 {
        assert(bytes::be32_signed(body, 4 * 2int) == values[2]);
    }
    if values.len() > 3 {
        assert(values.len() == 10);
        assert(bytes::be32_signed(body, 4 * 3int) == values[3]);
        assert(bytes::be32_signed(body, 4 * 4int) == values[4]);
        assert(bytes::be32_signed(body, 4 * 5int) == values[5]);
        assert(bytes::be32_signed(body, 4 * 6int) == values[6]);
        assert(bytes::be32_signed(body, 4 * 7int) == values[7]);
        assert(bytes::be32_signed(body, 4 * 8int) == values[8]);
        assert(bytes::be32_signed(body, 4 * 9int) == values[9]);
    }
}

/// A correction that is written reads back as it was.
pub proof fn correction_reads_back(correction: CorrectionModel, limits: Limits)
    requires
        correction_writable(correction, limits),
    ensures
        correction::correction_of(correction_bytes(correction), limits) == Ok::<
            CorrectionModel,
            Failure,
        >(correction),
{
    let (kind, body) = kind_and_body(correction);
    let data = correction_bytes(correction);
    layout::three_parts(signed32(kind), signed32(body.len() as i32), body);
    layout::held_numbers_read_back(data, 0);
    layout::held_numbers_read_back(data, 4);
    assert(data.skip(8) =~= body);
    match correction {
        CorrectionModel::Levels { levels } => {
            levels_read_back(levels, limits);
            assert(levels.take(4) =~= levels);
        },
        CorrectionModel::ToneCurve { curves } => {
            tone_curves_read_back(curves, limits);
            assert(curves.take(4) =~= curves);
        },
        CorrectionModel::GradientMap { stops } => gradient_map_reads_back(stops, limits),
        CorrectionModel::Unknown { .. } => {},
        _ => fixed_reads_back(correction, limits),
    }
}

} // verus!
