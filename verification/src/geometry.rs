//! Geometry of detected regions: the extent of a contour, the factor between
//! the detector's grid and the capture, and the padding rule.

use crate::error::Error;
use crate::models::OcrBox;
use vstd::prelude::*;
use vstd::string::StringExecFns;

verus! {

/// A region is kept only where both of its sides are longer than this.
pub const MIN_SIDE: u64 = 5;

/// The padded length of the shorter side, in tenths of its length: 2.2 times.
pub const PADDING_TENTHS: u64 = 22;

/// Along the line of text a region grows by the padding on both ends; across
/// it, by half the padding on both ends.
pub const LINE_WIDTH_MULTIPLIER: u64 = 2;

/// A pixel position in the detector's grid.
#[derive(Clone, Copy, Debug, PartialEq, Eq)]
pub struct Point {
    pub x: u32,
    pub y: u32,
}

/// `a / b` rounded up, for `a >= 0` and `b > 0`.
pub open spec fn ceil_div(a: int, b: int) -> int {
    (a + b - 1) / b
}

/// `ceil_div(a, b)` is the least integer whose product with `b` reaches `a`.
pub proof fn lemma_ceil_div_is_least(a: int, b: int)
    requires
        0 <= a,
        0 < b,
    ensures
        ceil_div(a, b) * b >= a,
        (ceil_div(a, b) - 1) * b < a,
        ceil_div(a, b) >= 0,
{
    let q = ceil_div(a, b);
    vstd::arithmetic::div_mod::lemma_fundamental_div_mod(a + b - 1, b);
    vstd::arithmetic::div_mod::lemma_mod_bound(a + b - 1, b);
    assert(b * q == q * b) by (nonlinear_arith);
    assert((q - 1) * b == q * b - b) by (nonlinear_arith);
    assert(q >= 0) by (nonlinear_arith)
        requires
            q * b >= a,
            a >= 0,
            b > 0,
            (q - 1) * b < a,
    ;
}

/// Rounding up keeps the order of the numerators.
pub proof fn lemma_ceil_div_monotone(a: int, c: int, b: int)
    requires
        0 <= a <= c,
        0 < b,
    ensures
        ceil_div(a, b) <= ceil_div(c, b),
{
    vstd::arithmetic::div_mod::lemma_div_is_ordered(a + b - 1, c + b - 1, b);
}

/// The factor that carries positions of the detector's grid into the capture:
/// a dimension of the capture over the same dimension of the downscaled image.
#[derive(Clone, Copy, Debug, PartialEq, Eq)]
pub struct Scale {
    pub numerator: u32,
    pub denominator: u32,
}

impl Scale {
    /// The denominator is not zero.
    pub open spec fn wf(&self) -> bool {
        self.denominator > 0
    }

    /// The position `v`, multiplied by the factor and rounded up.
    pub open spec fn scaled(&self, v: int) -> int {
        ceil_div(v * self.numerator, self.denominator as int)
    }

    /// The factor between a capture and its downscaled image. It is taken
    /// along the height where the downscaled image is taller than wide, and
    /// along the width otherwise. `None` where that side of the downscaled
    /// image is empty.
    pub fn between(full_width: u32, full_height: u32, width: u32, height: u32) -> (out: Option<Scale>)
        ensures
            height > width ==> out == Some(Scale { numerator: full_height, denominator: height }),
            height <= width && width > 0 ==> out == Some(
                Scale { numerator: full_width, denominator: width },
            ),
            height <= width && width == 0 ==> out is None,
            out matches Some(scale) ==> scale.wf(),
    {
        if height > width {
            Some(Scale { numerator: full_height, denominator: height })
        } else if width > 0 {
            Some(Scale { numerator: full_width, denominator: width })
        } else {
            None
        }
    }

    /// Computes [`Scale::scaled`].
    pub fn apply(&self, v: u32) -> (out: u64)
        requires
            self.wf(),
        ensures
            out == self.scaled(v as int),
    {
        assert(v * self.numerator <= 0xffff_ffff * 0xffff_ffff) by (nonlinear_arith)
            requires
                0 <= v <= 0xffff_ffff,
                0 <= self.numerator <= 0xffff_ffff,
        ;
        let product: u64 = (v as u64) * (self.numerator as u64);
        (product + (self.denominator as u64 - 1)) / (self.denominator as u64)
    }
}

/// The least and the greatest column and row among the positions of a contour.
#[derive(Clone, Copy, Debug, PartialEq, Eq)]
pub struct Extent {
    pub min_x: u32,
    pub max_x: u32,
    pub min_y: u32,
    pub max_y: u32,
}

impl Extent {
    /// The extent of no position at all: every bound at its far end.
    pub open spec fn empty() -> Extent {
        Extent { min_x: u32::MAX, max_x: 0, min_y: u32::MAX, max_y: 0 }
    }

    /// The extent widened to hold `p`.
    pub open spec fn with(self, p: Point) -> Extent {
        Extent {
            min_x: if p.x < self.min_x { p.x } else { self.min_x },
            max_x: if p.x > self.max_x { p.x } else { self.max_x },
            min_y: if p.y < self.min_y { p.y } else { self.min_y },
            max_y: if p.y > self.max_y { p.y } else { self.max_y },
        }
    }
}

/// The extent of a contour.
pub open spec fn extent_of(points: Seq<Point>) -> Extent
    decreases points.len(),
{
    if points.len() == 0 {
        Extent::empty()
    } else {
        extent_of(points.drop_last()).with(points.last())
    }
}

/// The extent of a contour with at least one position holds every position,
/// and each of its four bounds is the coordinate of some position.
pub proof fn lemma_extent_is_tight(points: Seq<Point>)
    requires
        points.len() > 0,
    ensures
        forall|i: int|
            0 <= i < points.len() ==> extent_of(points).min_x <= (#[trigger] points[i]).x
                <= extent_of(points).max_x && extent_of(points).min_y <= points[i].y <= extent_of(
                points,
            ).max_y,
        exists|i: int| 0 <= i < points.len() && (#[trigger] points[i]).x == extent_of(points).min_x,
        exists|i: int| 0 <= i < points.len() && (#[trigger] points[i]).x == extent_of(points).max_x,
        exists|i: int| 0 <= i < points.len() && (#[trigger] points[i]).y == extent_of(points).min_y,
        exists|i: int| 0 <= i < points.len() && (#[trigger] points[i]).y == extent_of(points).max_y,
    decreases points.len(),
{
    let rest = points.drop_last();
    let last = points.len() - 1;
    if rest.len() == 0 {
        assert(extent_of(rest) == Extent::empty());
        assert(points[last] == points.last());
    } else {
        lemma_extent_is_tight(rest);
        let e = extent_of(rest);
        let ix0 = choose|i: int| 0 <= i < rest.len() && (#[trigger] rest[i]).x == e.min_x;
        let ix1 = choose|i: int| 0 <= i < rest.len() && (#[trigger] rest[i]).x == e.max_x;
        let iy0 = choose|i: int| 0 <= i < rest.len() && (#[trigger] rest[i]).y == e.min_y;
        let iy1 = choose|i: int| 0 <= i < rest.len() && (#[trigger] rest[i]).y == e.max_y;
        assert(points[ix0] == rest[ix0]);
        assert(points[ix1] == rest[ix1]);
        assert(points[iy0] == rest[iy0]);
        assert(points[iy1] == rest[iy1]);
        assert(points[last] == points.last());
        assert forall|i: int| 0 <= i < points.len() implies extent_of(points).min_x <= (
        #[trigger] points[i]).x <= extent_of(points).max_x && extent_of(points).min_y
            <= points[i].y <= extent_of(points).max_y by {
            if i < last {
                assert(points[i] == rest[i]);
            }
        }
    }
}

/// Computes [`extent_of`].
pub fn bounding_extent(points: &Vec<Point>) -> (out: Extent)
    ensures
        out == extent_of(points@),
{
    let mut extent = Extent { min_x: u32::MAX, max_x: 0, min_y: u32::MAX, max_y: 0 };
    let mut i: usize = 0;
    while i < points.len()
        invariant
            i <= points.len(),
            extent == extent_of(points@.take(i as int)),
        decreases points.len() - i,
    {
        let p = points[i];
        proof {
            assert(points@.take(i + 1).drop_last() =~= points@.take(i as int));
            assert(points@.take(i + 1).last() == p);
        }
        if p.x < extent.min_x {
            extent.min_x = p.x;
        }
        if p.x > extent.max_x {
            extent.max_x = p.x;
        }
        if p.y < extent.min_y {
            extent.min_y = p.y;
        }
        if p.y > extent.max_y {
            extent.max_y = p.y;
        }
        i += 1;
    }
    proof {
        assert(points@.take(i as int) =~= points@);
    }
    extent
}

/// A rectangle in pixels of the capture, with unbounded coordinates.
pub struct Region {
    pub x: int,
    pub y: int,
    pub width: int,
    pub height: int,
}

/// A rectangle in pixels of the capture, before padding.
#[derive(Clone, Copy, Debug, PartialEq, Eq)]
pub struct Rect {
    pub x: u64,
    pub y: u64,
    pub width: u64,
    pub height: u64,
}

impl View for Rect {
    type V = Region;

    open spec fn view(&self) -> Region {
        Region {
            x: self.x as int,
            y: self.y as int,
            width: self.width as int,
            height: self.height as int,
        }
    }
}

impl OcrBox {
    /// The rectangle that the box covers.
    pub open spec fn region(&self) -> Region {
        Region {
            x: self.x as int,
            y: self.y as int,
            width: self.width as int,
            height: self.height as int,
        }
    }
}

/// An extent carried into the capture: each bound is scaled and rounded up,
/// and the sides are the differences of the scaled bounds.
pub open spec fn rescaled(extent: Extent, scale: Scale) -> Region {
    Region {
        x: scale.scaled(extent.min_x as int),
        y: scale.scaled(extent.min_y as int),
        width: scale.scaled(extent.max_x as int) - scale.scaled(extent.min_x as int),
        height: scale.scaled(extent.max_y as int) - scale.scaled(extent.min_y as int),
    }
}

/// Whether a rescaled region is large enough to be text.
pub open spec fn is_kept(region: Region) -> bool {
    region.width > MIN_SIDE && region.height > MIN_SIDE
}

/// What is added to a region whose shorter side is `shorter`: that side times
/// 2.2, rounded up, less the side itself.
pub open spec fn padding(shorter: int) -> int {
    ceil_div(shorter * PADDING_TENTHS, 10) - shorter
}

/// `a - b`, or 0 where that would be negative.
pub open spec fn clamped_sub(a: int, b: int) -> int {
    if a >= b {
        a - b
    } else {
        0
    }
}

/// The padded region. The padding is taken from the shorter side. A region
/// taller than wide grows by the padding above and below and by half of it
/// left and right; any other region grows by the padding left and right and by
/// half of it above and below. The corner stops at the capture's origin.
pub open spec fn padded(region: Region) -> Region {
    if region.height > region.width {
        let p = padding(region.width);
        Region {
            x: clamped_sub(region.x, p / LINE_WIDTH_MULTIPLIER as int),
            y: clamped_sub(region.y, p),
            width: region.width + p,
            height: region.height + p * LINE_WIDTH_MULTIPLIER,
        }
    } else {
        let p = padding(region.height);
        Region {
            x: clamped_sub(region.x, p),
            y: clamped_sub(region.y, p / LINE_WIDTH_MULTIPLIER as int),
            width: region.width + p * LINE_WIDTH_MULTIPLIER,
            height: region.height + p,
        }
    }
}

/// A padded region covers the region that was padded.
pub proof fn lemma_padded_covers_core(core: Region)
    requires
        0 <= core.x,
        0 <= core.y,
        0 <= core.width,
        0 <= core.height,
    ensures
        0 <= padded(core).x <= core.x,
        0 <= padded(core).y <= core.y,
        core.x + core.width <= padded(core).x + padded(core).width,
        core.y + core.height <= padded(core).y + padded(core).height,
        core.width <= padded(core).width,
        core.height <= padded(core).height,
{
}

/// Whether a region can be written with the coordinates of a box.
pub open spec fn fits(region: Region) -> bool {
    region.x <= i32::MAX && region.y <= i32::MAX && region.width <= i32::MAX && region.height
        <= i32::MAX
}

/// The region that a contour yields: its extent, rescaled, dropped where too
/// small, and padded.
pub open spec fn region_of(points: Seq<Point>, scale: Scale) -> Option<Region> {
    let core = rescaled(extent_of(points), scale);
    if is_kept(core) {
        Some(padded(core))
    } else {
        None
    }
}

/// Carries an extent into the capture. `None` where a greatest bound of the
/// extent lies below its least bound, as in the extent of no position.
pub fn rescale(extent: &Extent, scale: &Scale) -> (out: Option<Rect>)
    requires
        scale.wf(),
    ensures
        out is Some <==> extent.min_x <= extent.max_x && extent.min_y <= extent.max_y,
        out matches Some(rect) ==> rect@ == rescaled(*extent, *scale),
{
    if extent.min_x > extent.max_x || extent.min_y > extent.max_y {
        return None;
    }
    let left = scale.apply(extent.min_x);
    let right = scale.apply(extent.max_x);
    let top = scale.apply(extent.min_y);
    let bottom = scale.apply(extent.max_y);
    proof {
        lemma_scaled_monotone(*scale, extent.min_x as int, extent.max_x as int);
        lemma_scaled_monotone(*scale, extent.min_y as int, extent.max_y as int);
    }
    Some(Rect { x: left, y: top, width: right - left, height: bottom - top })
}

/// Scaling keeps the order of positions.
pub proof fn lemma_scaled_monotone(scale: Scale, a: int, b: int)
    requires
        scale.wf(),
        0 <= a <= b,
    ensures
        0 <= scale.scaled(a) <= scale.scaled(b),
{
    assert(0 <= a * scale.numerator <= b * scale.numerator) by (nonlinear_arith)
        requires
            0 <= a <= b,
            0 <= scale.numerator,
    ;
    lemma_ceil_div_monotone(a * scale.numerator, b * scale.numerator, scale.denominator as int);
    lemma_ceil_div_is_least(a * scale.numerator, scale.denominator as int);
}

/// Pads a rescaled region and writes it as a box without text. `None` where
/// the region is too small to be kept; an error where the padded region does
/// not fit the coordinates of a box.
pub fn pad(core: &Rect) -> (out: Result<Option<OcrBox>, Error>)
    ensures
        match out {
            Ok(Some(b)) => is_kept(core@) && fits(padded(core@)) && b.region() == padded(core@)
                && b.text@ == Seq::<char>::empty() && b.wf(),
            Ok(None) => !is_kept(core@),
            Err(e) => is_kept(core@) && !fits(padded(core@)) && e is PostProcessing,
        },
{
    if !(core.width > MIN_SIDE && core.height > MIN_SIDE) {
        return Ok(None);
    }
    let limit: u64 = 0x7fff_ffff;
    if core.width > limit || core.height > limit {
        return Err(Error::PostProcessing(String::from_str("region wider than the coordinate range")));
    }
    let tall = core.height > core.width;
    let shorter: u64 = if tall { core.width } else { core.height };
    let p: u64 = (shorter * PADDING_TENTHS + 9) / 10 - shorter;
    let along: u64 = p;
    let across: u64 = p / LINE_WIDTH_MULTIPLIER;
    let (dx, dy): (u64, u64) = if tall { (across, along) } else { (along, across) };
    let x: u64 = if core.x >= dx { core.x - dx } else { 0 };
    let y: u64 = if core.y >= dy { core.y - dy } else { 0 };
    let width: u64 = if tall { core.width + p } else { core.width + p * LINE_WIDTH_MULTIPLIER };
    let height: u64 = if tall { core.height + p * LINE_WIDTH_MULTIPLIER } else { core.height + p };
    if x > limit || y > limit || width > limit || height > limit {
        return Err(Error::PostProcessing(String::from_str("region leaves the coordinate range")));
    }
    Ok(Some(OcrBox {
        text: String::new(),
        x: x as i32,
        y: y as i32,
        width: width as i32,
        height: height as i32,
    }))
}

/// The region of a contour covers every position of the contour, carried
/// into the capture.
pub proof fn lemma_region_covers_contour(points: Seq<Point>, scale: Scale, i: int)
    requires
        scale.wf(),
        0 <= i < points.len(),
        region_of(points, scale) is Some,
    ensures
        region_of(points, scale)->0.x <= scale.scaled(points[i].x as int) <= region_of(
            points,
            scale,
        )->0.x + region_of(points, scale)->0.width,
        region_of(points, scale)->0.y <= scale.scaled(points[i].y as int) <= region_of(
            points,
            scale,
        )->0.y + region_of(points, scale)->0.height,
{
    let extent = extent_of(points);
    lemma_extent_is_tight(points);
    lemma_scaled_monotone(scale, extent.min_x as int, points[i].x as int);
    lemma_scaled_monotone(scale, points[i].x as int, extent.max_x as int);
    lemma_scaled_monotone(scale, extent.min_y as int, points[i].y as int);
    lemma_scaled_monotone(scale, points[i].y as int, extent.max_y as int);
    lemma_padded_covers_core(rescaled(extent, scale));
}

/// A position that lies less than 32 beyond the denominator of the factor
/// is carried to at most 32 times its numerator.
pub proof fn lemma_scaled_is_bounded(scale: Scale, v: int)
    requires
        scale.wf(),
        0 <= v < scale.denominator + 32,
    ensures
        0 <= scale.scaled(v) <= 32 * scale.numerator,
{
    let num = scale.numerator as int;
    let den = scale.denominator as int;
    assert(0 <= v * num <= (32 * num) * den) by (nonlinear_arith)
        requires
            0 <= v <= den + 31,
            1 <= den,
            0 <= num,
    ;
    lemma_ceil_div_monotone(v * num, (32 * num) * den, den);
    lemma_ceil_div_is_least(v * num, den);
    assert((32 * num) * den == den * (32 * num)) by (nonlinear_arith);
    vstd::arithmetic::div_mod::lemma_div_multiples_vanish_fancy(32 * num, den - 1, den);
}

/// The region of a contour fits a box where the numerator of the factor is
/// below 0x80_0000 and every position of the contour lies less than 32
/// beyond its denominator: as in a pass, where the heat-map is the
/// downscaled capture padded to the detector's stride.
pub proof fn lemma_near_region_fits(points: Seq<Point>, scale: Scale)
    requires
        scale.wf(),
        scale.numerator < 0x80_0000,
        forall|i: int|
            0 <= i < points.len() ==> (#[trigger] points[i]).x < scale.denominator + 32
                && points[i].y < scale.denominator + 32,
        region_of(points, scale) is Some,
    ensures
        fits(region_of(points, scale)->0),
{
    let extent = extent_of(points);
    if points.len() == 0 {
        lemma_scaled_monotone(scale, 0, u32::MAX as int);
    } else {
        lemma_extent_is_tight(points);
        lemma_scaled_is_bounded(scale, extent.min_x as int);
        lemma_scaled_is_bounded(scale, extent.max_x as int);
        lemma_scaled_is_bounded(scale, extent.min_y as int);
        lemma_scaled_is_bounded(scale, extent.max_y as int);
    }
}

/// Computes [`region_of`] and writes the region as a box without text; an
/// error where the region does not fit the coordinates of a box.
pub fn region_box(points: &Vec<Point>, scale: &Scale) -> (out: Result<Option<OcrBox>, Error>)
    requires
        scale.wf(),
    ensures
        match out {
            Ok(Some(b)) => region_of(points@, *scale) == Some(b.region()) && fits(b.region())
                && b.text@ == Seq::<char>::empty() && b.wf(),
            Ok(None) => region_of(points@, *scale) is None,
            Err(e) => e is PostProcessing && region_of(points@, *scale) is Some && !fits(
                region_of(points@, *scale)->0,
            ),
        },
{
    let extent = bounding_extent(points);
    match rescale(&extent, scale) {
        Some(core) => pad(&core),
        None => {
            proof {
                if extent.min_x > extent.max_x {
                    lemma_scaled_monotone(*scale, extent.max_x as int, extent.min_x as int);
                } else {
                    lemma_scaled_monotone(*scale, extent.max_y as int, extent.min_y as int);
                }
            }
            Ok(None)
        },
    }
}

/// The regions that a list of contours yields, in the order of the contours.
pub open spec fn regions(contours: Seq<Seq<Point>>, scale: Scale) -> Seq<Region>
    decreases contours.len(),
{
    if contours.len() == 0 {
        Seq::empty()
    } else {
        let earlier = regions(contours.drop_last(), scale);
        match region_of(contours.last(), scale) {
            Some(region) => earlier.push(region),
            None => earlier,
        }
    }
}

/// One contour yields at most one region: its padded, rescaled extent where
/// that is large enough, and none otherwise.
pub proof fn lemma_one_contour_one_region(points: Seq<Point>, scale: Scale)
    ensures
        regions(seq![points], scale) == match region_of(points, scale) {
            Some(region) => seq![region],
            None => Seq::<Region>::empty(),
        },
{
    let one = seq![points];
    assert(one.drop_last() =~= Seq::<Seq<Point>>::empty());
    assert(one.last() == points);
    assert(regions(one.drop_last(), scale) =~= Seq::<Region>::empty());
    match region_of(points, scale) {
        Some(region) => {
            assert(Seq::<Region>::empty().push(region) =~= seq![region]);
        },
        None => {},
    }
}

/// Whether every region can be written with the coordinates of a box.
pub open spec fn all_fit(regions: Seq<Region>) -> bool {
    forall|k: int| 0 <= k < regions.len() ==> fits(#[trigger] regions[k])
}

/// Whether `boxes` are the given regions, one box for each region and in the
/// same order, every box well formed and without text.
pub open spec fn are_blank_boxes(boxes: Seq<OcrBox>, regions: Seq<Region>) -> bool {
    &&& boxes.len() == regions.len()
    &&& forall|k: int|
        0 <= k < boxes.len() ==> (#[trigger] boxes[k]).region() == regions[k] && boxes[k].text@
            == Seq::<char>::empty() && boxes[k].wf()
}

/// What the contract of a list of contours sees: the positions of each.
pub open spec fn outlines(contours: Seq<Vec<Point>>) -> Seq<Seq<Point>> {
    Seq::new(contours.len(), |i: int| contours[i]@)
}

/// The regions of the first `n + 1` contours are those of the first `n`,
/// followed by the region of contour `n` where it yields one.
pub proof fn lemma_regions_step(contours: Seq<Seq<Point>>, scale: Scale, n: int)
    requires
        0 <= n < contours.len(),
    ensures
        regions(contours.take(n + 1), scale) == match region_of(contours[n], scale) {
            Some(region) => regions(contours.take(n), scale).push(region),
            None => regions(contours.take(n), scale),
        },
{
    assert(contours.take(n + 1).drop_last() =~= contours.take(n));
    assert(contours.take(n + 1).last() == contours[n]);
}

/// The regions of the first `n` contours open the list of all regions.
pub proof fn lemma_regions_prefix(contours: Seq<Seq<Point>>, scale: Scale, n: int)
    requires
        0 <= n <= contours.len(),
    ensures
        regions(contours.take(n), scale).len() <= regions(contours, scale).len(),
        forall|k: int|
            0 <= k < regions(contours.take(n), scale).len() ==> regions(contours.take(n), scale)[k]
                == regions(contours, scale)[k],
    decreases contours.len() - n,
{
    if n == contours.len() {
        assert(contours.take(n) =~= contours);
    } else {
        lemma_regions_step(contours, scale, n);
        lemma_regions_prefix(contours, scale, n + 1);
    }
}

/// Turns contours into boxes without text, in the order of the contours: one
/// for each contour whose rescaled extent is large enough. An error where a
/// padded region does not fit the coordinates of a box.
pub fn boxes_from_contours(contours: &Vec<Vec<Point>>, scale: &Scale) -> (out: Result<
    Vec<OcrBox>,
    Error,
>)
    requires
        scale.wf(),
    ensures
        match out {
            Ok(boxes) => all_fit(regions(outlines(contours@), *scale)) && are_blank_boxes(
                boxes@,
                regions(outlines(contours@), *scale),
            ),
            Err(e) => e is PostProcessing && !all_fit(regions(outlines(contours@), *scale)),
        },
{
    let ghost all = outlines(contours@);
    let mut boxes: Vec<OcrBox> = Vec::new();
    let mut i: usize = 0;
    while i < contours.len()
        invariant
            scale.wf(),
            all == outlines(contours@),
            i <= contours.len(),
            all_fit(regions(all.take(i as int), *scale)),
            are_blank_boxes(boxes@, regions(all.take(i as int), *scale)),
        decreases contours.len() - i,
    {
        proof {
            lemma_regions_step(all, *scale, i as int);
        }
        match region_box(&contours[i], scale) {
            Ok(Some(b)) => {
                boxes.push(b);
            },
            Ok(None) => {},
            Err(e) => {
                proof {
                    let found = regions(all.take(i + 1), *scale);
                    lemma_regions_prefix(all, *scale, i + 1);
                    assert(!fits(found[found.len() - 1]));
                    assert(!fits(regions(all, *scale)[found.len() - 1]));
                }
                return Err(e);
            },
        }
        i += 1;
    }
    proof {
        assert(all.take(i as int) =~= all);
    }
    Ok(boxes)
}

} // verus!
